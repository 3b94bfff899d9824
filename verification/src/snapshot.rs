//! Snapshots of the canvas and the stream of pixel updates kept beside them: how they
//! are named, which snapshot a cold start recovers, and when the stream starts a new file.
use crate::canvas::{
    Pixel, canvas_wf, fresh_canvas, is_image_of, key_in_grid, pixel_at, pixel_from_rgba, ChunkedCanvas,
    IMAGE_BYTES, WORLD_HEIGHT, WORLD_WIDTH,
};
use crate::args::BevyPlaceConfig;
use crate::png::{
    decode_image_rgba8, decode_png_rgba8, encode_png_rgba8, image_rgba8, png_of_rgba8, png_rgba8,
};
use vstd::prelude::*;

verus! {

/// The bytes of `snapshot/`, the folder of snapshots in a bucket.
pub const SNAPSHOT_PREFIX: [u8; 9] = [115, 110, 97, 112, 115, 104, 111, 116, 47];
/// The bytes of `.png`, the extension of a snapshot.
pub const PNG_SUFFIX: [u8; 4] = [46, 112, 110, 103];
/// The bytes of `png`.
pub const PNG_EXTENSION: [u8; 3] = [112, 110, 103];
/// The bytes of `.brp`, the extension of a stream file.
pub const STREAM_SUFFIX: [u8; 4] = [46, 98, 114, 112];

// ------------------------------------------------------------------
// Decimal numbers
// ------------------------------------------------------------------

/// Whether a byte is an ASCII decimal digit.
pub open spec fn is_digit(c: u8) -> bool {
    48 <= c <= 57
}

/// The number the decimal digits `s` spell.
pub open spec fn digits_value(s: Seq<u8>) -> nat
    decreases s.len(),
{
    if s.len() == 0 {
        0
    } else {
        digits_value(s.drop_last()) * 10 + (s.last() - 48) as nat
    }
}

/// The digits of a number text: the text without its leading `+`, if it has one.
pub open spec fn unsigned_digits(s: Seq<u8>) -> Seq<u8> {
    if s.len() > 0 && s[0] == 43 {
        s.drop_first()
    } else {
        s
    }
}

/// The `u64` a text spells as `str::parse::<u64>` reads it: an optional `+`, then one or
/// more decimal digits, and a value that fits.
pub open spec fn parse_u64_spec(s: Seq<u8>) -> Option<u64> {
    let d = unsigned_digits(s);
    if d.len() > 0 && (forall|i: int| 0 <= i < d.len() ==> is_digit(#[trigger] d[i])) && digits_value(d)
        <= u64::MAX {
        Some(digits_value(d) as u64)
    } else {
        None
    }
}

/// The decimal digits of `n`, without leading zeros.
pub open spec fn decimal_of(n: nat) -> Seq<u8>
    decreases n,
{
    if n < 10 {
        seq![(48 + n) as u8]
    } else {
        decimal_of(n / 10).push((48 + n % 10) as u8)
    }
}

/// A prefix of digits spells no more than the whole.
proof fn lemma_digits_value_prefix(s: Seq<u8>, k: int)
    requires
        0 <= k <= s.len(),
        forall|i: int| 0 <= i < s.len() ==> is_digit(#[trigger] s[i]),
    ensures
        digits_value(s.subrange(0, k)) <= digits_value(s),
    decreases s.len() - k,
{
    if k < s.len() {
        lemma_digits_value_prefix(s, k + 1);
        let p = s.subrange(0, k + 1);
        assert(p.drop_last() =~= s.subrange(0, k));
    } else {
        assert(s.subrange(0, k) =~= s);
    }
}

/// Reads a `u64` written in decimal, as `str::parse::<u64>` does.
pub fn parse_u64(s: &[u8]) -> (r: Option<u64>)
    ensures
        r == parse_u64_spec(s@),
{
    let mut start: usize = 0;
    if s.len() > 0 && s[0] == 43 {
        start = 1;
    }
    let ghost d = unsigned_digits(s@);
    assert(d =~= s@.subrange(start as int, s@.len() as int));
    if start >= s.len() {
        return None;
    }
    let mut value: u64 = 0;
    let mut i: usize = start;
    while i < s.len()
        invariant
            start <= i <= s@.len(),
            d == unsigned_digits(s@),
            d == s@.subrange(start as int, s@.len() as int),
            d.len() > 0,
            forall|j: int| 0 <= j < i - start ==> is_digit(#[trigger] d[j]),
            value == digits_value(d.subrange(0, i - start)),
        decreases s@.len() - i,
    {
        let c = s[i];
        if c < 48 || c > 57 {
            assert(!is_digit(d[i - start]));
            return None;
        }
        let digit = (c - 48) as u64;
        let ghost next = d.subrange(0, i - start + 1);
        assert(next.drop_last() =~= d.subrange(0, i - start));
        if value > (u64::MAX - digit) / 10 {
            proof {
                assert(digits_value(next) > u64::MAX) by (nonlinear_arith)
                    requires
                        value > (u64::MAX - digit) / 10,
                        digits_value(next) == value * 10 + digit,
                        digit <= 9,
                ;
                if forall|j: int| 0 <= j < d.len() ==> is_digit(#[trigger] d[j]) {
                    lemma_digits_value_prefix(d, i - start + 1);
                }
            }
            return None;
        }
        value = value * 10 + digit;
        i = i + 1;
    }
    assert(d.subrange(0, d.len() as int) =~= d);
    Some(value)
}

/// Appends the decimal digits of `n`.
fn push_decimal(out: &mut Vec<u8>, n: u64)
    ensures
        final(out)@ == old(out)@ + decimal_of(n as nat),
    decreases n,
{
    if n >= 10 {
        push_decimal(out, n / 10);
    }
    out.push((48 + n % 10) as u8);
    assert(final(out)@ =~= old(out)@ + decimal_of(n as nat));
}

/// Writes `n` in decimal.
pub fn format_u64(n: u64) -> (s: Vec<u8>)
    ensures
        s@ == decimal_of(n as nat),
{
    let mut out: Vec<u8> = Vec::new();
    push_decimal(&mut out, n);
    assert(out@ =~= decimal_of(n as nat));
    out
}

/// Decimal digits are digits and spell their number.
proof fn lemma_decimal_of(n: nat)
    ensures
        decimal_of(n).len() > 0,
        forall|i: int| 0 <= i < decimal_of(n).len() ==> is_digit(#[trigger] decimal_of(n)[i]),
        digits_value(decimal_of(n)) == n,
    decreases n,
{
    if n >= 10 {
        lemma_decimal_of(n / 10);
        let d = decimal_of(n);
        assert(d.drop_last() =~= decimal_of(n / 10));
        assert(n % 10 < 10);
        assert(d.last() == (48 + n % 10) as u8);
        assert((d.last() - 48) as nat == n % 10);
        assert((n / 10) * 10 + n % 10 == n);
    } else {
        let d = decimal_of(n);
        assert(d.drop_last() =~= Seq::<u8>::empty());
        assert(digits_value(d.drop_last()) == 0);
    }
}

/// Reading back a number written in decimal gives the number.
pub proof fn law_decimal_roundtrip(n: u64)
    ensures
        parse_u64_spec(decimal_of(n as nat)) == Some(n),
{
    lemma_decimal_of(n as nat);
    assert(unsigned_digits(decimal_of(n as nat)) == decimal_of(n as nat));
}

// ------------------------------------------------------------------
// Snapshot names
// ------------------------------------------------------------------

/// The file name of a snapshot taken at `ts`: `<ts>.png`.
pub open spec fn snapshot_file_name_spec(ts: u64) -> Seq<u8> {
    decimal_of(ts as nat) + PNG_SUFFIX@
}

/// The bucket key of a snapshot taken at `ts`: `snapshot/<ts>.png`.
pub open spec fn snapshot_key_spec(ts: u64) -> Seq<u8> {
    SNAPSHOT_PREFIX@ + decimal_of(ts as nat) + PNG_SUFFIX@
}

/// The file name of a pixel stream file started at `ts`: `<ts>.brp`.
pub open spec fn stream_file_name_spec(ts: u64) -> Seq<u8> {
    decimal_of(ts as nat) + STREAM_SUFFIX@
}

fn push_all(out: &mut Vec<u8>, bytes: &[u8])
    ensures
        final(out)@ == old(out)@ + bytes@,
{
    let mut i: usize = 0;
    while i < bytes.len()
        invariant
            i <= bytes@.len(),
            out@ == old(out)@ + bytes@.subrange(0, i as int),
        decreases bytes@.len() - i,
    {
        out.push(bytes[i]);
        i = i + 1;
        assert(out@ =~= old(out)@ + bytes@.subrange(0, i as int));
    }
    assert(bytes@.subrange(0, bytes@.len() as int) =~= bytes@);
}

/// The file name of a snapshot taken at `ts`.
pub fn snapshot_file_name(ts: u64) -> (name: Vec<u8>)
    ensures
        name@ == snapshot_file_name_spec(ts),
{
    let mut out = format_u64(ts);
    push_all(&mut out, PNG_SUFFIX.as_slice());
    out
}

/// The bucket key of a snapshot taken at `ts`.
pub fn snapshot_key(ts: u64) -> (key: Vec<u8>)
    ensures
        key@ == snapshot_key_spec(ts),
{
    let mut out: Vec<u8> = Vec::new();
    push_all(&mut out, SNAPSHOT_PREFIX.as_slice());
    let digits = format_u64(ts);
    push_all(&mut out, digits.as_slice());
    push_all(&mut out, PNG_SUFFIX.as_slice());
    out
}

/// The file name of a pixel stream file started at `ts`.
pub fn stream_file_name(ts: u64) -> (name: Vec<u8>)
    ensures
        name@ == stream_file_name_spec(ts),
{
    let mut out = format_u64(ts);
    push_all(&mut out, STREAM_SUFFIX.as_slice());
    out
}

/// The time a bucket key names, when it is `snapshot/<ts>.png`.
pub open spec fn key_timestamp_spec(key: Seq<u8>) -> Option<u64> {
    if key.len() >= 13 && key.subrange(0, 9) == SNAPSHOT_PREFIX@ && key.subrange(
        key.len() - 4,
        key.len() as int,
    ) == PNG_SUFFIX@ {
        parse_u64_spec(key.subrange(9, key.len() - 4))
    } else {
        None
    }
}

/// The time a snapshot file names, from its stem and extension: `<ts>` and `png`.
pub open spec fn file_timestamp_spec(stem: Seq<u8>, extension: Seq<u8>) -> Option<u64> {
    if extension == PNG_EXTENSION@ {
        parse_u64_spec(stem)
    } else {
        None
    }
}

fn bytes_equal(a: &[u8], b: &[u8]) -> (eq: bool)
    ensures
        eq == (a@ == b@),
{
    if a.len() != b.len() {
        return false;
    }
    let mut i: usize = 0;
    while i < a.len()
        invariant
            i <= a@.len(),
            a@.len() == b@.len(),
            forall|j: int| 0 <= j < i ==> a@[j] == b@[j],
        decreases a@.len() - i,
    {
        if a[i] != b[i] {
            return false;
        }
        i = i + 1;
    }
    assert(a@ =~= b@);
    true
}

/// The time a bucket key names, when it is `snapshot/<ts>.png`.
pub fn snapshot_key_timestamp(key: &[u8]) -> (ts: Option<u64>)
    ensures
        ts == key_timestamp_spec(key@),
{
    let n = key.len();
    if n < 13 {
        return None;
    }
    let head = vstd::slice::slice_subrange(key, 0, 9);
    let tail = vstd::slice::slice_subrange(key, n - 4, n);
    if !bytes_equal(head, SNAPSHOT_PREFIX.as_slice()) || !bytes_equal(tail, PNG_SUFFIX.as_slice()) {
        return None;
    }
    parse_u64(vstd::slice::slice_subrange(key, 9, n - 4))
}

/// The time a snapshot file names, from its stem and extension.
pub fn snapshot_file_timestamp(stem: &[u8], extension: &[u8]) -> (ts: Option<u64>)
    ensures
        ts == file_timestamp_spec(stem@, extension@),
{
    if bytes_equal(extension, PNG_EXTENSION.as_slice()) {
        parse_u64(stem)
    } else {
        None
    }
}

/// A snapshot's bucket key names the time it was taken.
pub proof fn law_snapshot_key_roundtrip(ts: u64)
    ensures
        key_timestamp_spec(snapshot_key_spec(ts)) == Some(ts),
{
    let key = snapshot_key_spec(ts);
    let d = decimal_of(ts as nat);
    lemma_decimal_of(ts as nat);
    assert(key.subrange(0, 9) =~= SNAPSHOT_PREFIX@);
    assert(key.subrange(key.len() - 4, key.len() as int) =~= PNG_SUFFIX@);
    assert(key.subrange(9, key.len() - 4) =~= d);
    law_decimal_roundtrip(ts);
}

/// A snapshot file's name names the time it was taken.
pub proof fn law_snapshot_file_roundtrip(ts: u64)
    ensures
        file_timestamp_spec(decimal_of(ts as nat), PNG_EXTENSION@) == Some(ts),
{
    law_decimal_roundtrip(ts);
}

// ------------------------------------------------------------------
// Recovering the latest snapshot
// ------------------------------------------------------------------

/// Whether candidate `i` is the snapshot a cold start recovers: among the candidates
/// that name a time, the first of those naming the greatest time, which must be positive.
pub open spec fn is_latest(stamps: Seq<Option<u64>>, i: int) -> bool {
    &&& 0 <= i < stamps.len()
    &&& stamps[i] matches Some(t) && t > 0
    &&& forall|j: int| 0 <= j < stamps.len() ==> (#[trigger] stamps[j] matches Some(u) ==> u <= stamps[i]->0)
    &&& forall|j: int| 0 <= j < i ==> #[trigger] stamps[j] != stamps[i]
}

/// The candidate a cold start recovers, from the times the candidates name: the first
/// one naming the greatest positive time; `None` when no candidate names one.
pub fn latest_snapshot(stamps: &Vec<Option<u64>>) -> (latest: Option<usize>)
    ensures
        match latest {
            Some(i) => is_latest(stamps@, i as int),
            None => forall|j: int|
                0 <= j < stamps@.len() ==> (#[trigger] stamps@[j] matches Some(u) ==> u == 0),
        },
{
    let mut best: Option<usize> = None;
    let mut best_ts: u64 = 0;
    let mut i: usize = 0;
    while i < stamps.len()
        invariant
            i <= stamps@.len(),
            forall|j: int| 0 <= j < i ==> (#[trigger] stamps@[j] matches Some(u) ==> u <= best_ts),
            match best {
                Some(b) => b < i && stamps@[b as int] == Some(best_ts) && best_ts > 0 && forall|j: int|
                    0 <= j < b ==> #[trigger] stamps@[j] != stamps@[b as int],
                None => best_ts == 0,
            },
        decreases stamps@.len() - i,
    {
        match stamps[i] {
            Some(ts) => {
                if ts > best_ts {
                    best_ts = ts;
                    best = Some(i);
                }
            },
            None => {},
        }
        i = i + 1;
    }
    best
}

// ------------------------------------------------------------------
// The pixel stream
// ------------------------------------------------------------------

/// The bookkeeping of the stream of pixel updates written beside the snapshots: where
/// it goes, whether a file is open, how much the open file holds and how much one file
/// may hold.
#[derive(Clone, Debug)]
pub struct PixelArtifactStream {
    pub directory: Option<String>,
    pub file_open: bool,
    pub current_file_size: u64,
    pub max_file_size: Option<u64>,
}

/// The steps that write one message to the stream, in their order: whether it is
/// written at all, whether a file must be opened first because none is open, and whether
/// the open file is then closed and a new one started because the message, with its
/// four-byte length, would take it past the largest file size.
#[derive(Clone, Copy, Debug, PartialEq, Eq)]
pub struct WritePlan {
    pub write: bool,
    pub open_first: bool,
    pub rotate: bool,
}

/// The stream's bookkeeping after a message of `msg_size` bytes is written to a file that
/// held `size` bytes: a new file holding just the message when it would overflow `max`,
/// or the same file grown by the message.
pub open spec fn stream_after_write(size: u64, max: u64, msg_size: u64) -> u64 {
    if size + msg_size + 4 > max {
        (msg_size + 4) as u64
    } else {
        (size + msg_size + 4) as u64
    }
}

/// The plan for writing a message of `msg_size` bytes to stream `s`.
pub open spec fn write_plan_spec(s: PixelArtifactStream, msg_size: u64) -> WritePlan {
    if s.directory is None || s.max_file_size is None {
        WritePlan { write: false, open_first: false, rotate: false }
    } else {
        let size = if s.file_open {
            s.current_file_size
        } else {
            0
        };
        WritePlan {
            write: true,
            open_first: !s.file_open,
            rotate: size + msg_size + 4 > s.max_file_size->0,
        }
    }
}

impl PixelArtifactStream {
    /// A stream writing under `directory`, with files of at most `chunk_mb` mebibytes;
    /// without either the stream is switched off.
    pub fn new(directory: Option<String>, chunk_mb: Option<u64>) -> (s: PixelArtifactStream)
        requires
            chunk_mb matches Some(mb) ==> mb * 1048576 <= u64::MAX,
        ensures
            s.directory == directory,
            !s.file_open,
            s.current_file_size == 0,
            s.max_file_size == match chunk_mb {
                Some(mb) => Some((mb * 1048576) as u64),
                None => None::<u64>,
            },
    {
        let max_file_size = match chunk_mb {
            Some(mb) => Some(mb * 1024 * 1024),
            None => None,
        };
        PixelArtifactStream { directory, file_open: false, current_file_size: 0, max_file_size }
    }

    /// Plans the writing of a message of `msg_size` bytes and records it: nothing when the
    /// stream is switched off; otherwise a file is open afterwards, holding the message
    /// after what it held before, or just the message when a file was opened or started
    /// for it.
    pub fn plan_write(&mut self, msg_size: u64) -> (plan: WritePlan)
        requires
            old(self).current_file_size + msg_size + 4 <= u64::MAX,
        ensures
            plan == write_plan_spec(*old(self), msg_size),
            final(self).directory == old(self).directory,
            final(self).max_file_size == old(self).max_file_size,
            !plan.write ==> *final(self) == *old(self),
            plan.write ==> final(self).file_open,
            plan.write ==> final(self).current_file_size == stream_after_write(
                if plan.open_first {
                    0
                } else {
                    old(self).current_file_size
                },
                old(self).max_file_size->0,
                msg_size,
            ),
    {
        if self.directory.is_none() {
            return WritePlan { write: false, open_first: false, rotate: false };
        }
        let max = match self.max_file_size {
            Some(max) => max,
            None => {
                return WritePlan { write: false, open_first: false, rotate: false };
            },
        };
        let open_first = !self.file_open;
        if open_first {
            self.file_open = true;
            self.current_file_size = 0;
        }
        let total = msg_size + 4;
        let rotate = self.current_file_size + total > max;
        if rotate {
            self.current_file_size = total;
        } else {
            self.current_file_size = self.current_file_size + total;
        }
        WritePlan { write: true, open_first, rotate }
    }
}

// ------------------------------------------------------------------
// Recovery at a cold start
// ------------------------------------------------------------------

/// Where a cold start looks for the latest snapshot.
#[derive(Clone, Copy, Debug, PartialEq, Eq)]
pub enum RecoverySource {
    /// Nowhere: the node starts from a fresh canvas.
    Fresh,
    /// The `snapshot` folder under the artifact folder.
    LocalFolder,
    /// The `snapshot/` keys of the artifact bucket.
    Bucket,
}

/// Where recovery looks, once the local folder was looked at without a snapshot being
/// found there when `local_missed` is set: only a bootstrap node recovers; it looks in its
/// artifact folder first and in its bucket after that.
pub open spec fn recovery_source_spec(c: BevyPlaceConfig, local_missed: bool) -> RecoverySource {
    if !c.bootstrap {
        RecoverySource::Fresh
    } else if c.artifact_folder is Some && !local_missed {
        RecoverySource::LocalFolder
    } else if c.artifact_s3_bucket is Some {
        RecoverySource::Bucket
    } else {
        RecoverySource::Fresh
    }
}

/// Where recovery looks next.
pub fn recovery_source(config: &BevyPlaceConfig, local_missed: bool) -> (source: RecoverySource)
    ensures
        source == recovery_source_spec(*config, local_missed),
{
    if !config.bootstrap {
        RecoverySource::Fresh
    } else if config.artifact_folder.is_some() && !local_missed {
        RecoverySource::LocalFolder
    } else if config.artifact_s3_bucket.is_some() {
        RecoverySource::Bucket
    } else {
        RecoverySource::Fresh
    }
}

/// Where a cold start looks: a node that is not a bootstrap node never recovers; a
/// bootstrap node with an artifact folder looks there first, whether or not it also has
/// a bucket; it turns to its bucket only once the folder is missing or held no snapshot;
/// and with neither left to look in it starts fresh.
pub proof fn law_recovery_order(c: BevyPlaceConfig, local_missed: bool)
    ensures
        !c.bootstrap ==> recovery_source_spec(c, local_missed) == RecoverySource::Fresh,
        c.bootstrap && c.artifact_folder is Some && !local_missed ==> recovery_source_spec(c, local_missed)
            == RecoverySource::LocalFolder,
        c.bootstrap && (c.artifact_folder is None || local_missed) && c.artifact_s3_bucket is Some
            ==> recovery_source_spec(c, local_missed) == RecoverySource::Bucket,
        c.bootstrap && (c.artifact_folder is None || local_missed) && c.artifact_s3_bucket is None
            ==> recovery_source_spec(c, local_missed) == RecoverySource::Fresh,
        recovery_source_spec(c, local_missed) == RecoverySource::LocalFolder ==> c.artifact_folder is Some,
        recovery_source_spec(c, local_missed) == RecoverySource::Bucket ==> c.artifact_s3_bucket is Some,
{
}

// ------------------------------------------------------------------
// Snapshot images
// ------------------------------------------------------------------

/// Whether canvas `v` holds the world image whose RGBA bytes are `raw`: every chunk of the
/// grid and no other, each pixel with the colour of its place in the image.
pub open spec fn holds_image(v: Map<u64, Seq<Pixel>>, raw: Seq<u8>) -> bool {
    &&& forall|k: u64| #[trigger] v.contains_key(k) <==> key_in_grid(k)
    &&& forall|wx: int, wy: int|
        0 <= wx < WORLD_WIDTH && 0 <= wy < WORLD_HEIGHT ==> #[trigger] pixel_at(v, wx, wy) == Some(
            pixel_from_rgba(raw, wx, wy),
        )
}

/// The canvas restored from decoded RGBA bytes `raw`: the canvas of the world image they
/// hold, or a fresh canvas when nothing was decoded or the image is not the world's size.
pub open spec fn restores(c: Map<u64, Seq<Pixel>>, raw: Option<Seq<u8>>) -> bool {
    match raw {
        Some(r) => if r.len() == IMAGE_BYTES {
            holds_image(c, r)
        } else {
            c == fresh_canvas()
        },
        None => c == fresh_canvas(),
    }
}

/// The canvas of decoded RGBA bytes.
fn canvas_of_rgba8(raw: Option<Vec<u8>>) -> (c: ChunkedCanvas)
    ensures
        canvas_wf(c@),
        restores(c@, match raw {
            Some(r) => Some(r@),
            None => None,
        }),
{
    match raw {
        Some(raw) => match ChunkedCanvas::from_bytes(raw.as_slice()) {
            Some(c) => c,
            None => ChunkedCanvas::new(),
        },
        None => ChunkedCanvas::new(),
    }
}

/// The canvas a snapshot file restores, read as PNG.
pub fn canvas_from_png(png: &[u8]) -> (c: ChunkedCanvas)
    ensures
        canvas_wf(c@),
        restores(c@, png_rgba8(png@)),
{
    canvas_of_rgba8(decode_png_rgba8(png))
}

/// The canvas a stored snapshot restores, read in whichever image format its bytes show.
pub fn canvas_from_image(bytes: &[u8]) -> (c: ChunkedCanvas)
    ensures
        canvas_wf(c@),
        restores(c@, image_rgba8(bytes@)),
{
    canvas_of_rgba8(decode_image_rgba8(bytes))
}

/// The snapshot file of a canvas: its world image as PNG, or `None` when the encoder
/// refuses it.
pub fn snapshot_png(canvas: &ChunkedCanvas) -> (png: Option<Vec<u8>>)
    requires
        canvas_wf(canvas@),
    ensures
        exists|img: Seq<u8>|
            {
                &&& img.len() == IMAGE_BYTES
                &&& is_image_of(img, canvas@)
                &&& match png {
                    Some(p) => png_of_rgba8(img, WORLD_WIDTH, WORLD_HEIGHT) == Some(p@)
                        && png_rgba8(p@) == Some(img),
                    None => png_of_rgba8(img, WORLD_WIDTH, WORLD_HEIGHT) is None,
                }
            },
{
    let img = canvas.to_image();
    encode_png_rgba8(img.as_slice(), WORLD_WIDTH, WORLD_HEIGHT)
}

// ------------------------------------------------------------------
// Periodic snapshots
// ------------------------------------------------------------------

/// Whether a snapshot is due for `canvas`, when `last` is the canvas of the last one.
pub open spec fn snapshot_due_spec(last: Map<u64, Seq<Pixel>>, canvas: Map<u64, Seq<Pixel>>) -> bool {
    last != canvas
}

/// The canvas the last periodic snapshot was taken of; a canvas with no chunks before
/// the first.
pub struct SnapshotMemory {
    last: ChunkedCanvas,
}

impl SnapshotMemory {
    #[verifier::type_invariant]
    spec fn last_wf(&self) -> bool {
        canvas_wf(self.last@)
    }

    /// The canvas of the last snapshot.
    pub closed spec fn last_view(&self) -> Map<u64, Seq<Pixel>> {
        self.last@
    }

    /// A memory of no snapshot: it remembers a canvas with no chunks.
    pub fn new() -> (m: SnapshotMemory)
        ensures
            m.last_view() == Map::<u64, Seq<Pixel>>::empty(),
    {
        SnapshotMemory { last: ChunkedCanvas::default() }
    }

    /// Whether a snapshot of `canvas` is due: exactly when it differs from the canvas of
    /// the last one. Either way `canvas` is remembered as the last.
    pub fn snapshot_due(&mut self, canvas: &ChunkedCanvas) -> (due: bool)
        requires
            canvas_wf(canvas@),
        ensures
            due == snapshot_due_spec(old(self).last_view(), canvas@),
            final(self).last_view() == canvas@,
    {
        proof {
            use_type_invariant(&*self);
        }
        let due = !self.last.same_pixels(canvas);
        if due {
            let copy = match ChunkedCanvas::from_entries(canvas.to_entries()) {
                Some(c) => c,
                None => ChunkedCanvas::new(),
            };
            self.last = copy;
        }
        due
    }
}

impl Default for SnapshotMemory {
    /// A memory of no snapshot.
    fn default() -> (m: SnapshotMemory)
        ensures
            m.last_view() == Map::<u64, Seq<Pixel>>::empty(),
    {
        SnapshotMemory::new()
    }
}

/// A canvas is snapshotted once until it changes: once `snapshot_due` saw a canvas, no
/// snapshot of that same canvas is due at the next check.
pub proof fn law_snapshot_once_per_change(canvas: Map<u64, Seq<Pixel>>)
    ensures
        !snapshot_due_spec(canvas, canvas),
{
}

/// A snapshot keeps every pixel's colour: when a canvas holding every chunk of the grid is
/// written as the image `img` and read back, as `canvas_from_png` reads the file
/// `snapshot_png` writes, each pixel of the restored canvas has the colour it had.
pub proof fn law_snapshot_restores_colours(v: Map<u64, Seq<Pixel>>, img: Seq<u8>, c: Map<u64, Seq<Pixel>>)
    requires
        canvas_wf(v),
        forall|k: u64| key_in_grid(k) ==> #[trigger] v.contains_key(k),
        img.len() == IMAGE_BYTES,
        is_image_of(img, v),
        restores(c, Some(img)),
    ensures
        forall|wx: int, wy: int|
            0 <= wx < WORLD_WIDTH && 0 <= wy < WORLD_HEIGHT ==> (#[trigger] pixel_at(c, wx, wy) matches Some(
                q,
            ) && pixel_at(v, wx, wy) matches Some(p) && q.r == p.r && q.g == p.g && q.b == p.b),
{
    assert forall|wx: int, wy: int| 0 <= wx < WORLD_WIDTH && 0 <= wy < WORLD_HEIGHT implies (#[trigger] pixel_at(
        c,
        wx,
        wy,
    ) matches Some(q) && pixel_at(v, wx, wy) matches Some(p) && q.r == p.r && q.g == p.g && q.b
        == p.b) by {
        crate::canvas::law_image_restores_colours(v, img, wx, wy);
    }
}

/// The four bytes written before a message: its size, as a `u32`, big-endian.
pub open spec fn length_prefix_spec(msg_size: u64) -> Seq<u8> {
    let n = msg_size as u32;
    seq![(n / 0x100_0000) as u8, ((n / 0x1_0000) % 0x100) as u8, ((n / 0x100) % 0x100) as u8, (n % 0x100) as u8]
}

/// The four bytes written before a message of `msg_size` bytes.
pub fn length_prefix(msg_size: u64) -> (p: [u8; 4])
    ensures
        p@ == length_prefix_spec(msg_size),
{
    let n = msg_size as u32;
    let p = [(n / 0x100_0000) as u8, ((n / 0x1_0000) % 0x100) as u8, ((n / 0x100) % 0x100) as u8, (n % 0x100) as u8];
    assert(p@ =~= length_prefix_spec(msg_size));
    p
}

/// How a message is written to the stream: nothing is written while the stream is
/// switched off; otherwise a file is opened first exactly when none is open, and a new
/// file is started exactly when the message, with its four-byte length, would take the
/// file past the largest size.
pub proof fn law_write_plan(s: PixelArtifactStream, msg_size: u64)
    ensures
        write_plan_spec(s, msg_size).write <==> (s.directory is Some && s.max_file_size is Some),
        write_plan_spec(s, msg_size).write ==> (write_plan_spec(s, msg_size).open_first <==> !s.file_open),
        write_plan_spec(s, msg_size).write && s.file_open ==> (write_plan_spec(s, msg_size).rotate <==> s.current_file_size
            + msg_size + 4 > s.max_file_size->0),
        write_plan_spec(s, msg_size).write && !s.file_open ==> (write_plan_spec(s, msg_size).rotate <==> msg_size
            + 4 > s.max_file_size->0),
        !write_plan_spec(s, msg_size).write ==> !write_plan_spec(s, msg_size).open_first && !write_plan_spec(
            s,
            msg_size,
        ).rotate,
{
}

/// A stream file holds no more than the largest file size, unless it holds a single
/// message that alone is larger: writing a message to a file within the bound leaves it
/// within the bound, or starts a file holding just that message.
pub proof fn law_stream_file_bounded(size: u64, max: u64, msg_size: u64)
    requires
        size + msg_size + 4 <= u64::MAX,
    ensures
        stream_after_write(size, max, msg_size) <= max || stream_after_write(size, max, msg_size)
            == msg_size + 4,
{
}

} // verus!
