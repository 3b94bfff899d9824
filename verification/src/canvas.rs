//! The shared canvas: a grid of chunks of pixels, merged last-writer-wins.
use std::collections::HashMap;
use vstd::prelude::*;
use vstd::std_specs::iter::IteratorSpec;

verus! {

broadcast use vstd::std_specs::hash::group_hash_axioms;

/// Side length of a square chunk, in pixels.
pub const CHUNK_SIZE: u32 = 64;
/// Width of the world, in pixels.
pub const WORLD_WIDTH: u32 = 1024;
/// Height of the world, in pixels.
pub const WORLD_HEIGHT: u32 = 1024;
/// Number of chunk columns.
pub const CHUNKS_X: u32 = WORLD_WIDTH / CHUNK_SIZE;
/// Number of chunk rows.
pub const CHUNKS_Y: u32 = WORLD_HEIGHT / CHUNK_SIZE;
/// Number of pixels held by one chunk.
pub const CHUNK_PIXELS: usize = 4096;
/// Length of the RGBA8 buffer of the whole world.
pub const IMAGE_BYTES: usize = 4194304;

/// A pixel of the shared canvas: its colour, the time it was written and who wrote it.
#[derive(Clone, Copy, Debug, PartialEq, Eq)]
pub struct Pixel {
    pub r: u8,
    pub g: u8,
    pub b: u8,
    pub timestamp: u64,
    pub owner: [u8; 32],
}

/// The owner of pixels nobody has written yet.
pub const NO_OWNER: [u8; 32] = [0, 0, 0, 0, 0, 0, 0, 0, 0, 0, 0, 0, 0, 0, 0, 0, 0, 0, 0, 0, 0, 0, 0, 0, 0, 0, 0, 0, 0, 0, 0, 0];

/// The pixel every fresh chunk is filled with.
pub open spec fn blank_pixel() -> Pixel {
    Pixel { r: 0, g: 0, b: 0, timestamp: 0, owner: NO_OWNER }
}

impl Default for Pixel {
    fn default() -> (p: Pixel)
        ensures
            p == blank_pixel(),
    {
        Pixel { r: 0, g: 0, b: 0, timestamp: 0, owner: NO_OWNER }
    }
}

/// The last-writer-wins merge of a stored pixel with an incoming one:
/// the incoming pixel replaces the stored one only when it is strictly newer.
pub open spec fn lww(stored: Pixel, incoming: Pixel) -> Pixel {
    if incoming.timestamp > stored.timestamp {
        incoming
    } else {
        stored
    }
}

/// Position of local pixel `(x, y)` inside a chunk's pixel vector.
pub open spec fn local_index(x: int, y: int) -> int {
    y * CHUNK_SIZE + x
}

/// The pixels of a fresh chunk.
pub open spec fn blank_chunk() -> Seq<Pixel> {
    Seq::new(CHUNK_PIXELS as nat, |i: int| blank_pixel())
}

/// A square block of `CHUNK_SIZE` x `CHUNK_SIZE` pixels, stored row by row.
pub struct Chunk {
    pub pixels: Vec<Pixel>,
}

impl Default for Chunk {
    fn default() -> (c: Chunk)
        ensures
            c.pixels@ == blank_chunk(),
    {
        let mut pixels: Vec<Pixel> = Vec::new();
        let mut i: usize = 0;
        while i < CHUNK_PIXELS
            invariant
                i <= CHUNK_PIXELS,
                pixels@.len() == i,
                forall|j: int| 0 <= j < i ==> pixels@[j] == blank_pixel(),
            decreases CHUNK_PIXELS - i,
        {
            pixels.push(Pixel::default());
            i = i + 1;
        }
        assert(pixels@ =~= blank_chunk());
        Chunk { pixels }
    }
}

impl Chunk {
    /// Last-writer-wins update of local pixel `(x, y)`: the new pixel is stored only when
    /// the coordinates lie inside the chunk and it is strictly newer than the stored one.
    /// Returns whether the chunk changed.
    pub fn update_pixel(&mut self, x: u32, y: u32, new_pixel: Pixel) -> (updated: bool)
        requires
            old(self).pixels@.len() >= CHUNK_PIXELS,
        ensures
            final(self).pixels@.len() == old(self).pixels@.len(),
            updated == (x < CHUNK_SIZE && y < CHUNK_SIZE && new_pixel.timestamp
                > old(self).pixels@[local_index(x as int, y as int)].timestamp),
            updated ==> final(self).pixels@ == old(self).pixels@.update(
                local_index(x as int, y as int),
                new_pixel,
            ),
            !updated ==> final(self).pixels@ == old(self).pixels@,
    {
        if x >= CHUNK_SIZE || y >= CHUNK_SIZE {
            return false;
        }
        let idx = (y * CHUNK_SIZE + x) as usize;
        if new_pixel.timestamp > self.pixels[idx].timestamp {
            self.pixels.set(idx, new_pixel);
            true
        } else {
            false
        }
    }

    /// A copy of this chunk holding the same pixels.
    pub fn duplicate(&self) -> (c: Chunk)
        ensures
            c.pixels@ == self.pixels@,
    {
        let mut pixels: Vec<Pixel> = Vec::new();
        let mut i: usize = 0;
        while i < self.pixels.len()
            invariant
                i <= self.pixels@.len(),
                pixels@ == self.pixels@.subrange(0, i as int),
            decreases self.pixels@.len() - i,
        {
            pixels.push(self.pixels[i]);
            i = i + 1;
        }
        assert(pixels@ =~= self.pixels@);
        Chunk { pixels }
    }
}

/// The key under which the chunk at chunk coordinates `(cx, cy)` is stored.
pub open spec fn chunk_key(cx: int, cy: int) -> u64 {
    (cx * 0x1_0000_0000 + cy) as u64
}

/// Whether a key names a chunk of the world grid.
pub open spec fn key_in_grid(k: u64) -> bool {
    exists|cx: int, cy: int|
        0 <= cx < CHUNKS_X && 0 <= cy < CHUNKS_Y && k == #[trigger] chunk_key(cx, cy)
}

/// Computes the key of the chunk at chunk coordinates `(cx, cy)`.
pub fn chunk_key_of(cx: u32, cy: u32) -> (k: u64)
    ensures
        k == chunk_key(cx as int, cy as int),
{
    (cx as u64) * 0x1_0000_0000 + (cy as u64)
}

/// Distinct chunk coordinates have distinct keys.
pub proof fn lemma_chunk_key_injective(cx1: int, cy1: int, cx2: int, cy2: int)
    requires
        0 <= cx1 < 0x1_0000_0000,
        0 <= cy1 < 0x1_0000_0000,
        0 <= cx2 < 0x1_0000_0000,
        0 <= cy2 < 0x1_0000_0000,
        chunk_key(cx1, cy1) == chunk_key(cx2, cy2),
    ensures
        cx1 == cx2,
        cy1 == cy2,
{
    assert(cx1 * 0x1_0000_0000 + cy1 < 0x1_0000_0000_0000_0000) by (nonlinear_arith)
        requires
            0 <= cx1 < 0x1_0000_0000,
            0 <= cy1 < 0x1_0000_0000,
    ;
    assert(cx2 * 0x1_0000_0000 + cy2 < 0x1_0000_0000_0000_0000) by (nonlinear_arith)
        requires
            0 <= cx2 < 0x1_0000_0000,
            0 <= cy2 < 0x1_0000_0000,
    ;
    assert(cx1 * 0x1_0000_0000 + cy1 == cx2 * 0x1_0000_0000 + cy2);
    assert(cx1 == cx2 && cy1 == cy2) by (nonlinear_arith)
        requires
            cx1 * 0x1_0000_0000 + cy1 == cx2 * 0x1_0000_0000 + cy2,
            0 <= cy1 < 0x1_0000_0000,
            0 <= cy2 < 0x1_0000_0000,
    ;
}

/// The whole canvas: the chunks present, by chunk key.
pub struct ChunkedCanvas {
    pub chunks: HashMap<u64, Chunk>,
}

impl View for ChunkedCanvas {
    type V = Map<u64, Seq<Pixel>>;

    open spec fn view(&self) -> Map<u64, Seq<Pixel>> {
        self.chunks@.map_values(|c: Chunk| c.pixels@)
    }
}

/// A canvas model is well formed when every chunk lies in the world grid and is full.
pub open spec fn canvas_wf(v: Map<u64, Seq<Pixel>>) -> bool {
    forall|k: u64| #[trigger] v.contains_key(k) ==> key_in_grid(k) && v[k].len() == CHUNK_PIXELS
}

/// The canvas a fresh world starts from: every chunk of the grid, blank.
pub open spec fn fresh_canvas() -> Map<u64, Seq<Pixel>> {
    Map::new(|k: u64| key_in_grid(k), |k: u64| blank_chunk())
}

/// The pixel at world coordinates `(wx, wy)`, when its chunk is present.
pub open spec fn pixel_at(v: Map<u64, Seq<Pixel>>, wx: int, wy: int) -> Option<Pixel> {
    let k = chunk_key(wx / CHUNK_SIZE as int, wy / CHUNK_SIZE as int);
    if 0 <= wx < WORLD_WIDTH && 0 <= wy < WORLD_HEIGHT && v.contains_key(k) {
        Some(v[k][local_index(wx % CHUNK_SIZE as int, wy % CHUNK_SIZE as int)])
    } else {
        None
    }
}

/// Whether writing `p` at world coordinates `(wx, wy)` changes the canvas.
pub open spec fn set_takes_effect(v: Map<u64, Seq<Pixel>>, wx: int, wy: int, p: Pixel) -> bool {
    match pixel_at(v, wx, wy) {
        Some(stored) => p.timestamp > stored.timestamp,
        None => false,
    }
}

/// The canvas after a last-writer-wins write of `p` at world coordinates `(wx, wy)`.
pub open spec fn canvas_set(v: Map<u64, Seq<Pixel>>, wx: int, wy: int, p: Pixel) -> Map<
    u64,
    Seq<Pixel>,
> {
    if set_takes_effect(v, wx, wy, p) {
        let k = chunk_key(wx / CHUNK_SIZE as int, wy / CHUNK_SIZE as int);
        v.insert(k, v[k].update(local_index(wx % CHUNK_SIZE as int, wy % CHUNK_SIZE as int), p))
    } else {
        v
    }
}

/// Index of the first byte of world pixel `(wx, wy)` in the RGBA8 image buffer.
pub open spec fn rgba_index(wx: int, wy: int) -> int {
    (wy * WORLD_WIDTH + wx) * 4
}

/// The four RGBA8 bytes of world pixel `(wx, wy)` in an image buffer.
pub open spec fn rgba_at(img: Seq<u8>, wx: int, wy: int) -> Seq<u8> {
    img.subrange(rgba_index(wx, wy), rgba_index(wx, wy) + 4)
}

/// The RGBA8 bytes the image shows for world pixel `(wx, wy)`: the pixel's colour,
/// opaque, where its chunk is present; transparent black elsewhere.
pub open spec fn rgba_of(v: Map<u64, Seq<Pixel>>, wx: int, wy: int) -> Seq<u8> {
    match pixel_at(v, wx, wy) {
        Some(p) => seq![p.r, p.g, p.b, 255u8],
        None => seq![0u8, 0u8, 0u8, 0u8],
    }
}

impl ChunkedCanvas {
    /// A fresh world: every chunk of the grid present and blank.
    pub fn new() -> (c: ChunkedCanvas)
        ensures
            c@ == fresh_canvas(),
            canvas_wf(c@),
    {
        let mut map: HashMap<u64, Chunk> = HashMap::new();
        let mut cx: u32 = 0;
        while cx < CHUNKS_X
            invariant
                cx <= CHUNKS_X,
                forall|k: u64| #[trigger]
                    map@.contains_key(k) <==> exists|i: int, j: int|
                        0 <= i < cx && 0 <= j < CHUNKS_Y && k == #[trigger] chunk_key(i, j),
                forall|k: u64| #[trigger] map@.contains_key(k) ==> map@[k].pixels@ == blank_chunk(),
            decreases CHUNKS_X - cx,
        {
            let mut cy: u32 = 0;
            while cy < CHUNKS_Y
                invariant
                    cx < CHUNKS_X,
                    cy <= CHUNKS_Y,
                    forall|k: u64| #[trigger]
                        map@.contains_key(k) <==> (exists|i: int, j: int|
                            0 <= i < cx && 0 <= j < CHUNKS_Y && k == #[trigger] chunk_key(i, j))
                            || (exists|j: int| 0 <= j < cy && k == #[trigger] chunk_key(cx as int, j)),
                    forall|k: u64| #[trigger] map@.contains_key(k) ==> map@[k].pixels@ == blank_chunk(),
                decreases CHUNKS_Y - cy,
            {
                let key = chunk_key_of(cx, cy);
                let chunk = Chunk::default();
                map.insert(key, chunk);
                proof {
                    assert forall|k: u64| #[trigger]
                        map@.contains_key(k) <==> (exists|i: int, j: int|
                            0 <= i < cx && 0 <= j < CHUNKS_Y && k == #[trigger] chunk_key(i, j))
                            || (exists|j: int| 0 <= j < cy + 1 && k == #[trigger] chunk_key(cx as int, j)) by {
                        if k == key {
                            assert(k == chunk_key(cx as int, cy as int));
                        }
                        if exists|j: int| 0 <= j < cy + 1 && k == #[trigger] chunk_key(cx as int, j) {
                            let j = choose|j: int| 0 <= j < cy + 1 && k == #[trigger] chunk_key(cx as int, j);
                            if j != cy {
                                assert(exists|j: int| 0 <= j < cy && k == #[trigger] chunk_key(cx as int, j));
                            }
                        }
                    }
                }
                cy = cy + 1;
            }
            proof {
                assert forall|k: u64| #[trigger]
                    map@.contains_key(k) <==> exists|i: int, j: int|
                        0 <= i < cx + 1 && 0 <= j < CHUNKS_Y && k == #[trigger] chunk_key(i, j) by {
                    if exists|i: int, j: int|
                        0 <= i < cx + 1 && 0 <= j < CHUNKS_Y && k == #[trigger] chunk_key(i, j) {
                        let (i, j) = choose|i: int, j: int|
                            0 <= i < cx + 1 && 0 <= j < CHUNKS_Y && k == #[trigger] chunk_key(i, j);
                        if i == cx {
                            assert(exists|j2: int| 0 <= j2 < CHUNKS_Y && k == #[trigger] chunk_key(cx as int, j2));
                        } else {
                            assert(exists|i2: int, j2: int|
                                0 <= i2 < cx && 0 <= j2 < CHUNKS_Y && k == #[trigger] chunk_key(i2, j2));
                        }
                    }
                }
            }
            cx = cx + 1;
        }
        let c = ChunkedCanvas { chunks: map };
        assert(c@ =~= fresh_canvas());
        c
    }

    /// Last-writer-wins write of `pixel` at world coordinates `(wx, wy)`.
    /// Returns whether the canvas changed: the coordinates lie in the world, the chunk
    /// is present and the pixel is strictly newer than the stored one.
    pub fn set_pixel(&mut self, wx: u32, wy: u32, pixel: Pixel) -> (updated: bool)
        requires
            canvas_wf(old(self)@),
        ensures
            updated == set_takes_effect(old(self)@, wx as int, wy as int, pixel),
            final(self)@ == canvas_set(old(self)@, wx as int, wy as int, pixel),
            canvas_wf(final(self)@),
    {
        if wx >= WORLD_WIDTH || wy >= WORLD_HEIGHT {
            return false;
        }
        let cx = wx / CHUNK_SIZE;
        let cy = wy / CHUNK_SIZE;
        let lx = wx % CHUNK_SIZE;
        let ly = wy % CHUNK_SIZE;
        let key = chunk_key_of(cx, cy);
        match self.chunks.remove(&key) {
            Some(mut chunk) => {
                proof {
                    assert(old(self)@.contains_key(key));
                    assert(chunk.pixels@ == old(self)@[key]);
                }
                let updated = chunk.update_pixel(lx, ly, pixel);
                self.chunks.insert(key, chunk);
                proof {
                    assert(self@ =~= canvas_set(old(self)@, wx as int, wy as int, pixel));
                }
                updated
            },
            None => {
                assert(self@ =~= old(self)@);
                false
            },
        }
    }
}

/// Whether `img` is the RGBA8 image of canvas `v`.
pub open spec fn is_image_of(img: Seq<u8>, v: Map<u64, Seq<Pixel>>) -> bool {
    &&& img.len() == IMAGE_BYTES
    &&& forall|wx: int, wy: int|
        0 <= wx < WORLD_WIDTH && 0 <= wy < WORLD_HEIGHT ==> #[trigger] rgba_at(img, wx, wy)
            == rgba_of(v, wx, wy)
}

/// World pixel `(wx, wy)` comes before `(wx2, wy2)` in row-major order.
pub open spec fn row_major_before(wx: int, wy: int, wx2: int, wy2: int) -> bool {
    wy < wy2 || (wy == wy2 && wx < wx2)
}

/// Pushing bytes after an image prefix keeps the bytes of the pixels already written.
proof fn lemma_rgba_at_push(img: Seq<u8>, extra: Seq<u8>, wx: int, wy: int)
    requires
        0 <= wx,
        0 <= wy,
        rgba_index(wx, wy) + 4 <= img.len(),
    ensures
        rgba_at(img + extra, wx, wy) == rgba_at(img, wx, wy),
{
    assert(rgba_at(img + extra, wx, wy) =~= rgba_at(img, wx, wy));
}

impl ChunkedCanvas {
    /// The RGBA8 image of the world, row by row: each pixel of a present chunk in its
    /// colour and opaque, every other pixel transparent black.
    pub fn to_image(&self) -> (img: Vec<u8>)
        requires
            canvas_wf(self@),
        ensures
            img@.len() == IMAGE_BYTES,
            is_image_of(img@, self@),
    {
        let mut img: Vec<u8> = Vec::new();
        let mut wy: u32 = 0;
        while wy < WORLD_HEIGHT
            invariant
                wy <= WORLD_HEIGHT,
                canvas_wf(self@),
                img@.len() == rgba_index(0, wy as int),
                forall|wx2: int, wy2: int|
                    0 <= wx2 < WORLD_WIDTH && 0 <= wy2 < wy ==> #[trigger] rgba_at(img@, wx2, wy2)
                        == rgba_of(self@, wx2, wy2),
            decreases WORLD_HEIGHT - wy,
        {
            let cy = wy / CHUNK_SIZE;
            let ly = wy % CHUNK_SIZE;
            let mut cx: u32 = 0;
            while cx < CHUNKS_X
                invariant
                    wy < WORLD_HEIGHT,
                    cy == wy / CHUNK_SIZE,
                    ly == wy % CHUNK_SIZE,
                    cx <= CHUNKS_X,
                    canvas_wf(self@),
                    img@.len() == rgba_index(cx * CHUNK_SIZE, wy as int),
                    forall|wx2: int, wy2: int|
                        0 <= wx2 < WORLD_WIDTH && 0 <= wy2 < WORLD_HEIGHT && row_major_before(
                            wx2,
                            wy2,
                            cx * CHUNK_SIZE,
                            wy as int,
                        ) ==> #[trigger] rgba_at(img@, wx2, wy2) == rgba_of(self@, wx2, wy2),
                decreases CHUNKS_X - cx,
            {
                let key = chunk_key_of(cx, cy);
                let chunk = self.chunks.get(&key);
                let mut x: u32 = 0;
                while x < CHUNK_SIZE
                    invariant
                        wy < WORLD_HEIGHT,
                        cy == wy / CHUNK_SIZE,
                        ly == wy % CHUNK_SIZE,
                        cx < CHUNKS_X,
                        x <= CHUNK_SIZE,
                        key == chunk_key(cx as int, cy as int),
                        canvas_wf(self@),
                        match chunk {
                            Some(c) => self@.contains_key(key) && c.pixels@ == self@[key],
                            None => !self@.contains_key(key),
                        },
                        img@.len() == rgba_index(cx * CHUNK_SIZE + x, wy as int),
                        forall|wx2: int, wy2: int|
                            0 <= wx2 < WORLD_WIDTH && 0 <= wy2 < WORLD_HEIGHT && row_major_before(
                                wx2,
                                wy2,
                                cx * CHUNK_SIZE + x,
                                wy as int,
                            ) ==> #[trigger] rgba_at(img@, wx2, wy2) == rgba_of(self@, wx2, wy2),
                    decreases CHUNK_SIZE - x,
                {
                    let ghost before = img@;
                    let ghost wx: int = cx * CHUNK_SIZE + x;
                    match chunk {
                        Some(c) => {
                            let p = c.pixels[(ly * CHUNK_SIZE + x) as usize];
                            img.push(p.r);
                            img.push(p.g);
                            img.push(p.b);
                            img.push(255u8);
                        },
                        None => {
                            img.push(0u8);
                            img.push(0u8);
                            img.push(0u8);
                            img.push(0u8);
                        },
                    }
                    proof {
                        let extra = img@.subrange(before.len() as int, img@.len() as int);
                        assert(img@ =~= before + extra);
                        assert(wx / CHUNK_SIZE as int == cx);
                        assert(wx % CHUNK_SIZE as int == x);
                        assert(rgba_at(img@, wx, wy as int) =~= rgba_of(self@, wx, wy as int));
                        assert forall|wx2: int, wy2: int|
                            0 <= wx2 < WORLD_WIDTH && 0 <= wy2 < WORLD_HEIGHT && row_major_before(
                                wx2,
                                wy2,
                                wx + 1,
                                wy as int,
                            ) implies #[trigger] rgba_at(img@, wx2, wy2) == rgba_of(
                            self@,
                            wx2,
                            wy2,
                        ) by {
                            if row_major_before(wx2, wy2, wx, wy as int) {
                                lemma_rgba_at_push(before, extra, wx2, wy2);
                            }
                        }
                    }
                    x = x + 1;
                }
                cx = cx + 1;
            }
            wy = wy + 1;
        }
        img
    }
}

/// The pixel restored from world pixel `(wx, wy)` of an RGBA8 image: its colour,
/// with no write time and no owner.
pub open spec fn pixel_from_rgba(raw: Seq<u8>, wx: int, wy: int) -> Pixel {
    let i = rgba_index(wx, wy);
    Pixel { r: raw[i], g: raw[i + 1], b: raw[i + 2], timestamp: 0, owner: NO_OWNER }
}

/// Builds the chunk at chunk coordinates `(cx, cy)` from an RGBA8 image of the world.
fn chunk_from_rgba(raw: &[u8], cx: u32, cy: u32) -> (c: Chunk)
    requires
        raw@.len() == IMAGE_BYTES,
        cx < CHUNKS_X,
        cy < CHUNKS_Y,
    ensures
        c.pixels@.len() == CHUNK_PIXELS,
        forall|lx: int, ly: int|
            0 <= lx < CHUNK_SIZE && 0 <= ly < CHUNK_SIZE ==> #[trigger] c.pixels@[local_index(lx, ly)]
                == pixel_from_rgba(raw@, cx * CHUNK_SIZE + lx, cy * CHUNK_SIZE + ly),
{
    let mut pixels: Vec<Pixel> = Vec::new();
    let mut ly: u32 = 0;
    while ly < CHUNK_SIZE
        invariant
            raw@.len() == IMAGE_BYTES,
            cx < CHUNKS_X,
            cy < CHUNKS_Y,
            ly <= CHUNK_SIZE,
            pixels@.len() == ly * CHUNK_SIZE,
            forall|lx2: int, ly2: int|
                0 <= lx2 < CHUNK_SIZE && 0 <= ly2 < ly ==> #[trigger] pixels@[local_index(lx2, ly2)]
                    == pixel_from_rgba(raw@, cx * CHUNK_SIZE + lx2, cy * CHUNK_SIZE + ly2),
        decreases CHUNK_SIZE - ly,
    {
        let mut lx: u32 = 0;
        while lx < CHUNK_SIZE
            invariant
                raw@.len() == IMAGE_BYTES,
                cx < CHUNKS_X,
                cy < CHUNKS_Y,
                ly < CHUNK_SIZE,
                lx <= CHUNK_SIZE,
                pixels@.len() == ly * CHUNK_SIZE + lx,
                forall|lx2: int, ly2: int|
                    0 <= lx2 < CHUNK_SIZE && 0 <= ly2 < CHUNK_SIZE && (ly2 < ly || (ly2 == ly
                        && lx2 < lx)) ==> #[trigger] pixels@[local_index(lx2, ly2)]
                        == pixel_from_rgba(raw@, cx * CHUNK_SIZE + lx2, cy * CHUNK_SIZE + ly2),
            decreases CHUNK_SIZE - lx,
        {
            let wx = cx * CHUNK_SIZE + lx;
            let wy = cy * CHUNK_SIZE + ly;
            let i = ((wy * WORLD_WIDTH + wx) * 4) as usize;
            let p = Pixel { r: raw[i], g: raw[i + 1], b: raw[i + 2], timestamp: 0, owner: NO_OWNER };
            pixels.push(p);
            lx = lx + 1;
        }
        ly = ly + 1;
    }
    Chunk { pixels }
}

impl ChunkedCanvas {
    /// Restores a canvas from the RGBA8 image of the world: every chunk of the grid present,
    /// each pixel carrying the image's colour, no write time and no owner.
    /// Returns `None` when the buffer is not the size of the world's image.
    pub fn from_bytes(raw: &[u8]) -> (c: Option<ChunkedCanvas>)
        ensures
            c is None <==> raw@.len() != IMAGE_BYTES,
            c matches Some(canvas) ==> {
                &&& canvas_wf(canvas@)
                &&& forall|k: u64| #[trigger] canvas@.contains_key(k) <==> key_in_grid(k)
                &&& forall|wx: int, wy: int|
                    0 <= wx < WORLD_WIDTH && 0 <= wy < WORLD_HEIGHT ==> #[trigger] pixel_at(
                        canvas@,
                        wx,
                        wy,
                    ) == Some(pixel_from_rgba(raw@, wx, wy))
            },
    {
        if raw.len() != IMAGE_BYTES {
            return None;
        }
        let mut map: HashMap<u64, Chunk> = HashMap::new();
        let mut cx: u32 = 0;
        while cx < CHUNKS_X
            invariant
                raw@.len() == IMAGE_BYTES,
                cx <= CHUNKS_X,
                forall|k: u64| #[trigger]
                    map@.contains_key(k) <==> exists|i: int, j: int|
                        0 <= i < cx && 0 <= j < CHUNKS_Y && k == #[trigger] chunk_key(i, j),
                forall|i: int, j: int|
                    0 <= i < cx && 0 <= j < CHUNKS_Y ==> #[trigger] chunk_holds_image(
                        map@[chunk_key(i, j)].pixels@,
                        raw@,
                        i,
                        j,
                    ),
            decreases CHUNKS_X - cx,
        {
            let mut cy: u32 = 0;
            while cy < CHUNKS_Y
                invariant
                    raw@.len() == IMAGE_BYTES,
                    cx < CHUNKS_X,
                    cy <= CHUNKS_Y,
                    forall|k: u64| #[trigger]
                        map@.contains_key(k) <==> (exists|i: int, j: int|
                            0 <= i < cx && 0 <= j < CHUNKS_Y && k == #[trigger] chunk_key(i, j))
                            || (exists|j: int| 0 <= j < cy && k == #[trigger] chunk_key(cx as int, j)),
                    forall|i: int, j: int|
                        ((0 <= i < cx && 0 <= j < CHUNKS_Y) || (i == cx && 0 <= j < cy))
                            ==> #[trigger] chunk_holds_image(map@[chunk_key(i, j)].pixels@, raw@, i, j),
                decreases CHUNKS_Y - cy,
            {
                let key = chunk_key_of(cx, cy);
                let chunk = chunk_from_rgba(raw, cx, cy);
                let ghost before = map@;
                map.insert(key, chunk);
                proof {
                    assert(chunk_holds_image(map@[chunk_key(cx as int, cy as int)].pixels@, raw@, cx as int, cy as int));
                    assert forall|i: int, j: int|
                        ((0 <= i < cx && 0 <= j < CHUNKS_Y) || (i == cx && 0 <= j < cy + 1))
                            implies #[trigger] chunk_holds_image(map@[chunk_key(i, j)].pixels@, raw@, i, j) by {
                        if i != cx || j != cy {
                            if chunk_key(i, j) == key {
                                lemma_chunk_key_injective(i, j, cx as int, cy as int);
                            }
                            assert(map@[chunk_key(i, j)] == before[chunk_key(i, j)]);
                        }
                    }
                    assert forall|k: u64| #[trigger]
                        map@.contains_key(k) <==> (exists|i: int, j: int|
                            0 <= i < cx && 0 <= j < CHUNKS_Y && k == #[trigger] chunk_key(i, j))
                            || (exists|j: int| 0 <= j < cy + 1 && k == #[trigger] chunk_key(cx as int, j)) by {
                        if k == key {
                            assert(k == chunk_key(cx as int, cy as int));
                        }
                        if exists|j: int| 0 <= j < cy + 1 && k == #[trigger] chunk_key(cx as int, j) {
                            let j = choose|j: int| 0 <= j < cy + 1 && k == #[trigger] chunk_key(cx as int, j);
                            if j != cy {
                                assert(exists|j: int| 0 <= j < cy && k == #[trigger] chunk_key(cx as int, j));
                            }
                        }
                    }
                }
                cy = cy + 1;
            }
            proof {
                assert forall|k: u64| #[trigger]
                    map@.contains_key(k) <==> exists|i: int, j: int|
                        0 <= i < cx + 1 && 0 <= j < CHUNKS_Y && k == #[trigger] chunk_key(i, j) by {
                    if exists|i: int, j: int|
                        0 <= i < cx + 1 && 0 <= j < CHUNKS_Y && k == #[trigger] chunk_key(i, j) {
                        let (i, j) = choose|i: int, j: int|
                            0 <= i < cx + 1 && 0 <= j < CHUNKS_Y && k == #[trigger] chunk_key(i, j);
                        if i == cx {
                            assert(exists|j2: int| 0 <= j2 < CHUNKS_Y && k == #[trigger] chunk_key(cx as int, j2));
                        } else {
                            assert(exists|i2: int, j2: int|
                                0 <= i2 < cx && 0 <= j2 < CHUNKS_Y && k == #[trigger] chunk_key(i2, j2));
                        }
                    }
                }
            }
            cx = cx + 1;
        }
        let c = ChunkedCanvas { chunks: map };
        proof {
            assert forall|k: u64| #[trigger] c@.contains_key(k) implies key_in_grid(k)
                && c@[k].len() == CHUNK_PIXELS by {
                let (i, j) = choose|i: int, j: int|
                    0 <= i < CHUNKS_X && 0 <= j < CHUNKS_Y && k == #[trigger] chunk_key(i, j);
                assert(chunk_holds_image(map@[chunk_key(i, j)].pixels@, raw@, i, j));
            }
            assert forall|k: u64| #[trigger] c@.contains_key(k) <==> key_in_grid(k) by {}
            assert forall|wx: int, wy: int|
                0 <= wx < WORLD_WIDTH && 0 <= wy < WORLD_HEIGHT implies #[trigger] pixel_at(c@, wx, wy)
                    == Some(pixel_from_rgba(raw@, wx, wy)) by {
                let i = wx / CHUNK_SIZE as int;
                let j = wy / CHUNK_SIZE as int;
                assert(chunk_holds_image(map@[chunk_key(i, j)].pixels@, raw@, i, j));
                assert(c@.contains_key(chunk_key(i, j)));
                let lx = wx % CHUNK_SIZE as int;
                let ly = wy % CHUNK_SIZE as int;
                assert(map@[chunk_key(i, j)].pixels@[local_index(lx, ly)] == pixel_from_rgba(
                    raw@,
                    i * CHUNK_SIZE + lx,
                    j * CHUNK_SIZE + ly,
                ));
            }
        }
        Some(c)
    }
}

/// Chunk `(cx, cy)` holds the pixels of the image's matching block.
pub open spec fn chunk_holds_image(pixels: Seq<Pixel>, raw: Seq<u8>, cx: int, cy: int) -> bool {
    &&& pixels.len() == CHUNK_PIXELS
    &&& forall|lx: int, ly: int|
        0 <= lx < CHUNK_SIZE && 0 <= ly < CHUNK_SIZE ==> #[trigger] pixels[local_index(lx, ly)]
            == pixel_from_rgba(raw, cx * CHUNK_SIZE + lx, cy * CHUNK_SIZE + ly)
}

/// Merging the same write twice has the effect of merging it once.
pub proof fn law_lww_idempotent(stored: Pixel, incoming: Pixel)
    ensures
        lww(lww(stored, incoming), incoming) == lww(stored, incoming),
{
}

/// Two writes with different write times merge to the same pixel in either order.
pub proof fn law_lww_commutative(stored: Pixel, a: Pixel, b: Pixel)
    requires
        a.timestamp != b.timestamp,
    ensures
        lww(lww(stored, a), b) == lww(lww(stored, b), a),
{
}

/// Merging never moves a pixel's write time backwards.
pub proof fn law_lww_monotonic(stored: Pixel, incoming: Pixel)
    ensures
        lww(stored, incoming).timestamp >= stored.timestamp,
        lww(stored, incoming).timestamp >= incoming.timestamp || lww(stored, incoming) == stored,
{
}

/// The pixel a replica holds after merging `updates`, in order, into `stored`.
pub open spec fn lww_fold(stored: Pixel, updates: Seq<Pixel>) -> Pixel
    decreases updates.len(),
{
    if updates.len() == 0 {
        stored
    } else {
        lww(lww_fold(stored, updates.drop_last()), updates.last())
    }
}

/// The merged pixel is one of the candidates and is at least as new as all of them.
proof fn lemma_lww_fold_is_newest(stored: Pixel, updates: Seq<Pixel>)
    ensures
        lww_fold(stored, updates) == stored || updates.contains(lww_fold(stored, updates)),
        lww_fold(stored, updates).timestamp >= stored.timestamp,
        forall|i: int| 0 <= i < updates.len() ==> lww_fold(stored, updates).timestamp >= #[trigger] updates[i].timestamp,
    decreases updates.len(),
{
    if updates.len() > 0 {
        let rest = updates.drop_last();
        lemma_lww_fold_is_newest(stored, rest);
        let r = lww_fold(stored, rest);
        if r != stored {
            assert(rest.contains(r));
            let j = choose|j: int| 0 <= j < rest.len() && rest[j] == r;
            assert(updates[j] == r);
        }
        assert forall|i: int| 0 <= i < updates.len() implies lww_fold(stored, updates).timestamp
            >= #[trigger] updates[i].timestamp by {
            if i < updates.len() - 1 {
                assert(rest[i] == updates[i]);
            }
        }
        if lww_fold(stored, updates) != stored && lww_fold(stored, updates) != r {
            assert(updates[updates.len() - 1] == lww_fold(stored, updates));
        }
    }
}

/// Replicas that merge the same writes, in any order, hold the same pixel, provided
/// no two of the writes (nor the stored pixel) share a write time.
pub proof fn law_lww_converges(stored: Pixel, s1: Seq<Pixel>, s2: Seq<Pixel>)
    requires
        s1.to_multiset() == s2.to_multiset(),
        forall|i: int, j: int|
            0 <= i < s1.len() && 0 <= j < s1.len() && i != j ==> #[trigger] s1[i].timestamp
                != #[trigger] s1[j].timestamp,
        forall|i: int| 0 <= i < s1.len() ==> #[trigger] s1[i].timestamp != stored.timestamp,
    ensures
        lww_fold(stored, s1) == lww_fold(stored, s2),
{
    broadcast use vstd::seq_lib::group_to_multiset_ensures;

    lemma_lww_fold_is_newest(stored, s1);
    lemma_lww_fold_is_newest(stored, s2);
    let r1 = lww_fold(stored, s1);
    let r2 = lww_fold(stored, s2);
    s1.to_multiset_ensures();
    s2.to_multiset_ensures();
    if r1 != stored {
        assert(s1.contains(r1));
        assert(s1.to_multiset().count(r1) > 0);
        assert(s2.contains(r1));
        let i = choose|i: int| 0 <= i < s2.len() && s2[i] == r1;
        assert(r2.timestamp >= s2[i].timestamp);
    }
    if r2 != stored {
        assert(s2.contains(r2));
        assert(s2.to_multiset().count(r2) > 0);
        assert(s1.contains(r2));
        let i = choose|i: int| 0 <= i < s1.len() && s1[i] == r2;
        assert(r1.timestamp >= s1[i].timestamp);
    }
    assert(r1.timestamp == r2.timestamp);
    if r1 != r2 {
        if r1 == stored {
            let i = choose|i: int| 0 <= i < s1.len() && s1[i] == r2;
        } else if r2 == stored {
            let i = choose|i: int| 0 <= i < s1.len() && s1[i] == r1;
        } else {
            let i = choose|i: int| 0 <= i < s1.len() && s1[i] == r1;
            let j = choose|j: int| 0 <= j < s1.len() && s1[j] == r2;
            assert(s1[i].timestamp == s1[j].timestamp);
        }
    }
}

/// After a write, reading the written pixel gives the merge of the stored pixel with the
/// written one, and every other pixel reads as before.
pub proof fn law_set_then_read(
    v: Map<u64, Seq<Pixel>>,
    wx: int,
    wy: int,
    p: Pixel,
    wx2: int,
    wy2: int,
)
    requires
        canvas_wf(v),
    ensures
        pixel_at(canvas_set(v, wx, wy, p), wx2, wy2) == if wx2 == wx && wy2 == wy {
            match pixel_at(v, wx, wy) {
                Some(stored) => Some(lww(stored, p)),
                None => None,
            }
        } else {
            pixel_at(v, wx2, wy2)
        },
        canvas_wf(canvas_set(v, wx, wy, p)),
{
    if set_takes_effect(v, wx, wy, p) && (wx2 != wx || wy2 != wy) && 0 <= wx2 < WORLD_WIDTH && 0
        <= wy2 < WORLD_HEIGHT {
        let k = chunk_key(wx / CHUNK_SIZE as int, wy / CHUNK_SIZE as int);
        let k2 = chunk_key(wx2 / CHUNK_SIZE as int, wy2 / CHUNK_SIZE as int);
        if k == k2 {
            lemma_chunk_key_injective(
                wx / CHUNK_SIZE as int,
                wy / CHUNK_SIZE as int,
                wx2 / CHUNK_SIZE as int,
                wy2 / CHUNK_SIZE as int,
            );
            lemma_local_index_injective(wx, wy, wx2, wy2);
        }
    }
}

/// Distinct world pixels of one chunk sit at distinct positions of the chunk.
proof fn lemma_local_index_injective(wx: int, wy: int, wx2: int, wy2: int)
    requires
        0 <= wx < WORLD_WIDTH,
        0 <= wy < WORLD_HEIGHT,
        0 <= wx2 < WORLD_WIDTH,
        0 <= wy2 < WORLD_HEIGHT,
        wx / CHUNK_SIZE as int == wx2 / CHUNK_SIZE as int,
        wy / CHUNK_SIZE as int == wy2 / CHUNK_SIZE as int,
        wx != wx2 || wy != wy2,
    ensures
        local_index(wx % CHUNK_SIZE as int, wy % CHUNK_SIZE as int) != local_index(
            wx2 % CHUNK_SIZE as int,
            wy2 % CHUNK_SIZE as int,
        ),
{
}

/// Two writes to the same pixel leave its chunk holding the merge of both.
proof fn lemma_set_same_pixel_twice(v: Map<u64, Seq<Pixel>>, wx: int, wy: int, p1: Pixel, p2: Pixel)
    requires
        canvas_wf(v),
    ensures
        canvas_set(canvas_set(v, wx, wy, p1), wx, wy, p2) == match pixel_at(v, wx, wy) {
            Some(stored) => {
                let k = chunk_key(wx / CHUNK_SIZE as int, wy / CHUNK_SIZE as int);
                v.insert(
                    k,
                    v[k].update(
                        local_index(wx % CHUNK_SIZE as int, wy % CHUNK_SIZE as int),
                        lww(lww(stored, p1), p2),
                    ),
                )
            },
            None => v,
        },
{
    law_set_then_read(v, wx, wy, p1, wx, wy);
    if let Some(stored) = pixel_at(v, wx, wy) {
        let k = chunk_key(wx / CHUNK_SIZE as int, wy / CHUNK_SIZE as int);
        let i = local_index(wx % CHUNK_SIZE as int, wy % CHUNK_SIZE as int);
        let m = canvas_set(v, wx, wy, p1);
        let r = canvas_set(m, wx, wy, p2);
        let expected = v.insert(k, v[k].update(i, lww(lww(stored, p1), p2)));
        assert(v[k][i] == stored);
        if set_takes_effect(v, wx, wy, p1) {
            assert(m[k] =~= v[k].update(i, p1));
        } else {
            assert(m == v);
        }
        assert(m[k][i] == lww(stored, p1));
        if set_takes_effect(m, wx, wy, p2) {
            assert(r[k] =~= expected[k]);
        } else {
            assert(r[k] =~= expected[k]);
        }
        assert(r =~= expected);
    }
}

/// Two writes to the canvas commute when they target different pixels or carry
/// different write times.
pub proof fn law_set_commutes(
    v: Map<u64, Seq<Pixel>>,
    wx1: int,
    wy1: int,
    p1: Pixel,
    wx2: int,
    wy2: int,
    p2: Pixel,
)
    requires
        canvas_wf(v),
        wx1 != wx2 || wy1 != wy2 || p1.timestamp != p2.timestamp,
    ensures
        canvas_set(canvas_set(v, wx1, wy1, p1), wx2, wy2, p2) == canvas_set(
            canvas_set(v, wx2, wy2, p2),
            wx1,
            wy1,
            p1,
        ),
{
    let a = canvas_set(canvas_set(v, wx1, wy1, p1), wx2, wy2, p2);
    let b = canvas_set(canvas_set(v, wx2, wy2, p2), wx1, wy1, p1);
    law_set_then_read(v, wx1, wy1, p1, wx2, wy2);
    law_set_then_read(v, wx2, wy2, p2, wx1, wy1);
    law_set_then_read(v, wx1, wy1, p1, wx1, wy1);
    law_set_then_read(v, wx2, wy2, p2, wx2, wy2);
    let k1 = chunk_key(wx1 / CHUNK_SIZE as int, wy1 / CHUNK_SIZE as int);
    let k2 = chunk_key(wx2 / CHUNK_SIZE as int, wy2 / CHUNK_SIZE as int);
    let i1 = local_index(wx1 % CHUNK_SIZE as int, wy1 % CHUNK_SIZE as int);
    let i2 = local_index(wx2 % CHUNK_SIZE as int, wy2 % CHUNK_SIZE as int);
    if wx1 == wx2 && wy1 == wy2 {
        lemma_set_same_pixel_twice(v, wx1, wy1, p1, p2);
        lemma_set_same_pixel_twice(v, wx1, wy1, p2, p1);
        law_lww_commutative(pixel_at(v, wx1, wy1)->0, p1, p2);
    } else {
        if k1 == k2 && 0 <= wx1 < WORLD_WIDTH && 0 <= wy1 < WORLD_HEIGHT && 0 <= wx2
            < WORLD_WIDTH && 0 <= wy2 < WORLD_HEIGHT {
            lemma_chunk_key_injective(
                wx1 / CHUNK_SIZE as int,
                wy1 / CHUNK_SIZE as int,
                wx2 / CHUNK_SIZE as int,
                wy2 / CHUNK_SIZE as int,
            );
            lemma_local_index_injective(wx1, wy1, wx2, wy2);
            if set_takes_effect(v, wx1, wy1, p1) && set_takes_effect(v, wx2, wy2, p2) {
                assert(a[k1] =~= b[k1]);
            }
        }
        assert(a =~= b);
    }
}

impl Default for ChunkedCanvas {
    /// A canvas with no chunks.
    fn default() -> (c: ChunkedCanvas)
        ensures
            c@ == Map::<u64, Seq<Pixel>>::empty(),
    {
        let c = ChunkedCanvas { chunks: HashMap::new() };
        assert(c@ =~= Map::<u64, Seq<Pixel>>::empty());
        c
    }
}

/// Whether two pixels are the same.
fn same_pixel(a: &Pixel, b: &Pixel) -> (same: bool)
    ensures
        same == (*a == *b),
{
    if a.r != b.r || a.g != b.g || a.b != b.b || a.timestamp != b.timestamp {
        return false;
    }
    let mut i: usize = 0;
    while i < 32
        invariant
            i <= 32,
            forall|j: int| 0 <= j < i ==> a.owner@[j] == b.owner@[j],
        decreases 32 - i,
    {
        if a.owner[i] != b.owner[i] {
            return false;
        }
        i = i + 1;
    }
    assert(a.owner =~= b.owner);
    true
}

/// Whether two chunks hold the same pixels.
fn same_chunk(a: &Chunk, b: &Chunk) -> (same: bool)
    ensures
        same == (a.pixels@ == b.pixels@),
{
    if a.pixels.len() != b.pixels.len() {
        return false;
    }
    let mut i: usize = 0;
    while i < a.pixels.len()
        invariant
            i <= a.pixels@.len(),
            a.pixels@.len() == b.pixels@.len(),
            forall|j: int| 0 <= j < i ==> a.pixels@[j] == b.pixels@[j],
        decreases a.pixels@.len() - i,
    {
        if !same_pixel(&a.pixels[i], &b.pixels[i]) {
            return false;
        }
        i = i + 1;
    }
    assert(a.pixels@ =~= b.pixels@);
    true
}

impl ChunkedCanvas {
    /// Whether two well-formed canvases hold the same chunks with the same pixels.
    pub fn same_pixels(&self, other: &ChunkedCanvas) -> (same: bool)
        requires
            canvas_wf(self@),
            canvas_wf(other@),
        ensures
            same == (self@ == other@),
    {
        let mut cx: u32 = 0;
        while cx < CHUNKS_X
            invariant
                cx <= CHUNKS_X,
                canvas_wf(self@),
                canvas_wf(other@),
                forall|i: int, j: int|
                    0 <= i < cx && 0 <= j < CHUNKS_Y ==> #[trigger] same_entry(
                        self@,
                        other@,
                        chunk_key(i, j),
                    ),
            decreases CHUNKS_X - cx,
        {
            let mut cy: u32 = 0;
            while cy < CHUNKS_Y
                invariant
                    cx < CHUNKS_X,
                    cy <= CHUNKS_Y,
                    canvas_wf(self@),
                    canvas_wf(other@),
                    forall|i: int, j: int|
                        ((0 <= i < cx && 0 <= j < CHUNKS_Y) || (i == cx && 0 <= j < cy))
                            ==> #[trigger] same_entry(self@, other@, chunk_key(i, j)),
                decreases CHUNKS_Y - cy,
            {
                let key = chunk_key_of(cx, cy);
                match (self.chunks.get(&key), other.chunks.get(&key)) {
                    (Some(a), Some(b)) => {
                        if !same_chunk(a, b) {
                            assert(self@[key] == a.pixels@);
                            assert(other@[key] == b.pixels@);
                            assert(self@[key] != other@[key]);
                            return false;
                        }
                    },
                    (None, None) => {},
                    _ => {
                        assert(self@.contains_key(key) != other@.contains_key(key));
                        return false;
                    },
                }
                cy = cy + 1;
            }
            cx = cx + 1;
        }
        proof {
            assert forall|k: u64| #[trigger] self@.contains_key(k) implies other@.contains_key(k)
                && self@[k] == other@[k] by {
                let (i, j) = choose|i: int, j: int|
                    0 <= i < CHUNKS_X && 0 <= j < CHUNKS_Y && k == #[trigger] chunk_key(i, j);
                assert(same_entry(self@, other@, chunk_key(i, j)));
            }
            assert forall|k: u64| #[trigger] other@.contains_key(k) implies self@.contains_key(k) by {
                let (i, j) = choose|i: int, j: int|
                    0 <= i < CHUNKS_X && 0 <= j < CHUNKS_Y && k == #[trigger] chunk_key(i, j);
                assert(same_entry(self@, other@, chunk_key(i, j)));
            }
            assert(self@ =~= other@);
        }
        true
    }
}

/// Two canvases agree on key `k`: both lack it, or both hold the same pixels under it.
pub open spec fn same_entry(a: Map<u64, Seq<Pixel>>, b: Map<u64, Seq<Pixel>>, k: u64) -> bool {
    a.contains_key(k) == b.contains_key(k) && (a.contains_key(k) ==> a[k] == b[k])
}

/// A chunk with its chunk coordinates, as stored in a snapshot.
pub struct ChunkSnapshot {
    pub cx: u32,
    pub cy: u32,
    pub chunk: Chunk,
}

impl ChunkSnapshot {
    /// The snapshot of chunk `(cx, cy)`: a copy of its pixels.
    pub fn from_chunk(cx: u32, cy: u32, chunk: &Chunk) -> (s: ChunkSnapshot)
        ensures
            s.cx == cx,
            s.cy == cy,
            s.chunk.pixels@ == chunk.pixels@,
    {
        ChunkSnapshot { cx, cy, chunk: chunk.duplicate() }
    }
}

/// A peer's request for the canvas history, stamped with the time it was made.
pub struct CanvasRequest {
    pub timestamp: u64,
}

impl Default for CanvasRequest {
    /// A request stamped with the current time.
    fn default() -> CanvasRequest {
        CanvasRequest { timestamp: crate::time::epoch_time_seconds() }
    }
}

/// The answer to a canvas request: the whole canvas.
pub struct CanvasResponse {
    pub canvas: ChunkedCanvas,
}

impl Default for CanvasResponse {
    /// An answer holding a canvas with no chunks.
    fn default() -> (r: CanvasResponse)
        ensures
            r.canvas@ == Map::<u64, Seq<Pixel>>::empty(),
    {
        CanvasResponse { canvas: ChunkedCanvas::default() }
    }
}

/// Restoring a canvas from the image of a full canvas gives back every pixel's colour.
pub proof fn law_image_restores_colours(v: Map<u64, Seq<Pixel>>, img: Seq<u8>, wx: int, wy: int)
    requires
        canvas_wf(v),
        forall|k: u64| key_in_grid(k) ==> #[trigger] v.contains_key(k),
        is_image_of(img, v),
        0 <= wx < WORLD_WIDTH,
        0 <= wy < WORLD_HEIGHT,
    ensures
        pixel_at(v, wx, wy) matches Some(p) && pixel_from_rgba(img, wx, wy).r == p.r
            && pixel_from_rgba(img, wx, wy).g == p.g && pixel_from_rgba(img, wx, wy).b == p.b,
{
    let k = chunk_key(wx / CHUNK_SIZE as int, wy / CHUNK_SIZE as int);
    assert(key_in_grid(k));
    assert(v.contains_key(k));
    let bytes = rgba_at(img, wx, wy);
    assert(bytes == rgba_of(v, wx, wy));
    let i = rgba_index(wx, wy);
    assert(bytes[0] == img[i] && bytes[1] == img[i + 1] && bytes[2] == img[i + 2]);
}

/// A key names a chunk of the grid exactly when its high half is a chunk column and its
/// low half a chunk row.
proof fn lemma_key_in_grid_halves(k: u64)
    ensures
        key_in_grid(k) <==> (k / 0x1_0000_0000 < CHUNKS_X && k % 0x1_0000_0000 < CHUNKS_Y),
{
    if key_in_grid(k) {
        let (cx, cy) = choose|cx: int, cy: int|
            0 <= cx < CHUNKS_X && 0 <= cy < CHUNKS_Y && k == #[trigger] chunk_key(cx, cy);
        assert(cx * 0x1_0000_0000 + cy < 0x1_0000_0000_0000_0000) by (nonlinear_arith)
            requires
                0 <= cx < 16,
                0 <= cy < 16,
        ;
        assert(k == cx * 0x1_0000_0000 + cy);
        assert(k / 0x1_0000_0000 == cx && k % 0x1_0000_0000 == cy) by (nonlinear_arith)
            requires
                k == cx * 0x1_0000_0000 + cy,
                0 <= cy < 16,
                0 <= cx,
        ;
    }
    if k / 0x1_0000_0000 < CHUNKS_X && k % 0x1_0000_0000 < CHUNKS_Y {
        let cx = (k / 0x1_0000_0000) as int;
        let cy = (k % 0x1_0000_0000) as int;
        assert(k == cx * 0x1_0000_0000 + cy) by (nonlinear_arith)
            requires
                cx == k / 0x1_0000_0000,
                cy == k % 0x1_0000_0000,
        ;
        assert(k == chunk_key(cx, cy));
    }
}

impl ChunkedCanvas {
    /// Whether the canvas is well formed: every chunk lies in the world grid and is full.
    pub fn is_well_formed(&self) -> (wf: bool)
        ensures
            wf == canvas_wf(self@),
    {
        let ghost v = self.chunks.iter().remaining();
        let mut ok = true;
        let ghost mut n: int = 0;
        for entry in it: self.chunks.iter()
            invariant
                it.seq() == v,
                n == it.index(),
                ok == forall|i: int| 0 <= i < n ==> #[trigger] good_entry(v[i]),
        {
            let (k, c) = entry;
            proof {
                lemma_key_in_grid_halves(*k);
                assert(v[n] == (k, c));
            }
            let good = *k / 0x1_0000_0000 < CHUNKS_X as u64 && *k % 0x1_0000_0000 < CHUNKS_Y as u64
                && c.pixels.len() == CHUNK_PIXELS;
            proof {
                assert(good == good_entry(v[n]));
                if ok && good {
                    assert forall|i: int| 0 <= i < n + 1 implies #[trigger] good_entry(v[i]) by {
                        if i < n {
                            assert(good_entry(v[i]));
                        }
                    }
                } else if !good {
                    assert(!good_entry(v[n]));
                } else {
                    let w = choose|i: int| 0 <= i < n && !#[trigger] good_entry(v[i]);
                    assert(!good_entry(v[w]));
                }
            }
            ok = ok && good;
            proof {
                n = n + 1;
            }
        }
        proof {
            assert(n == v.len());
            if ok {
                assert forall|k: u64| #[trigger] self@.contains_key(k) implies key_in_grid(k)
                    && self@[k].len() == CHUNK_PIXELS by {
                    assert(self.chunks@.contains_key(k));
                    assert(v.contains((&k, &self.chunks@[k])));
                    let i = choose|i: int| 0 <= i < v.len() && v[i] == (&k, &self.chunks@[k]);
                    assert(good_entry(v[i]));
                }
            } else {
                let i = choose|i: int| 0 <= i < n && !#[trigger] good_entry(v[i]);
                assert(!good_entry(v[i]));
                let k = *v[i].0;
                assert(self.chunks@.contains_key(k));
                assert(self@.contains_key(k));
            }
        }
        ok
    }
}

/// Whether a chunk entry of the map lies in the grid and is full.
pub open spec fn good_entry(e: (&u64, &Chunk)) -> bool {
    key_in_grid(*e.0) && e.1.pixels@.len() == CHUNK_PIXELS
}

/// Whether an entry names a chunk of the grid and holds a full chunk.
pub open spec fn entry_ok(e: (u32, u32, Chunk)) -> bool {
    e.0 < CHUNKS_X && e.1 < CHUNKS_Y && e.2.pixels@.len() == CHUNK_PIXELS
}

/// The canvas a list of chunk entries describes; a later entry for the same chunk
/// replaces an earlier one.
pub open spec fn entries_map(entries: Seq<(u32, u32, Chunk)>) -> Map<u64, Seq<Pixel>>
    decreases entries.len(),
{
    if entries.len() == 0 {
        Map::empty()
    } else {
        let e = entries.last();
        entries_map(entries.drop_last()).insert(chunk_key(e.0 as int, e.1 as int), e.2.pixels@)
    }
}

/// A map built from valid entries is a well-formed canvas.
proof fn lemma_entries_map_wf(entries: Seq<(u32, u32, Chunk)>)
    requires
        forall|i: int| 0 <= i < entries.len() ==> entry_ok(#[trigger] entries[i]),
    ensures
        canvas_wf(entries_map(entries)),
    decreases entries.len(),
{
    if entries.len() > 0 {
        let rest = entries.drop_last();
        assert forall|i: int| 0 <= i < rest.len() implies entry_ok(#[trigger] rest[i]) by {
            assert(rest[i] == entries[i]);
        }
        lemma_entries_map_wf(rest);
        let e = entries.last();
        assert(entry_ok(entries[entries.len() - 1]));
        assert(key_in_grid(chunk_key(e.0 as int, e.1 as int)));
    }
}

impl ChunkedCanvas {
    /// The canvas holding the given chunks, when every entry names a chunk of the grid
    /// and holds a full chunk; `None` otherwise.
    pub fn from_entries(entries: Vec<(u32, u32, Chunk)>) -> (c: Option<ChunkedCanvas>)
        ensures
            c is Some <==> forall|i: int| 0 <= i < entries@.len() ==> entry_ok(#[trigger] entries@[i]),
            c matches Some(canvas) ==> canvas@ == entries_map(entries@) && canvas_wf(canvas@),
            c matches Some(canvas) ==> rebuild(entries@) == Some(canvas@),
            c is None ==> rebuild(entries@) is None,
    {
        let ghost all = entries@;
        let mut map: HashMap<u64, Chunk> = HashMap::new();
        let mut rest = entries;
        let mut taken: Vec<(u32, u32, Chunk)> = Vec::new();
        let mut i: usize = 0;
        let n = rest.len();
        #[verifier::loop_isolation(false)]
        while i < n
            invariant
                n == all.len(),
                i <= n,
                forall|j: int| 0 <= j < i ==> entry_ok(#[trigger] all[j]),
                map@.map_values(|c: Chunk| c.pixels@) == entries_map(all.subrange(0, i as int)),
                rest@ == all.subrange(i as int, n as int),
            decreases n - i,
        {
            let e = rest.remove(0);
            proof {
                assert(e == all[i as int]);
            }
            if !(e.0 < CHUNKS_X && e.1 < CHUNKS_Y && e.2.pixels.len() == CHUNK_PIXELS) {
                return None;
            }
            let key = chunk_key_of(e.0, e.1);
            let ghost before = map@;
            map.insert(key, e.2);
            proof {
                let sub = all.subrange(0, i + 1);
                assert(sub.drop_last() =~= all.subrange(0, i as int));
                assert(sub.last() == all[i as int]);
                assert(map@.map_values(|c: Chunk| c.pixels@) =~= entries_map(sub));
                assert(rest@ =~= all.subrange(i + 1, n as int));
            }
            i = i + 1;
        }
        assert(all.subrange(0, n as int) =~= all);
        let c = ChunkedCanvas { chunks: map };
        proof {
            lemma_entries_map_wf(all);
        }
        Some(c)
    }

    /// The chunks of a well-formed canvas as a list of entries, in grid order.
    pub fn to_entries(&self) -> (entries: Vec<(u32, u32, Chunk)>)
        requires
            canvas_wf(self@),
        ensures
            forall|i: int| 0 <= i < entries@.len() ==> entry_ok(#[trigger] entries@[i]),
            entries_map(entries@) == self@,
            forall|i: int, j: int|
                0 <= i < j < entries@.len() ==> grid_before(#[trigger] entries@[i], #[trigger] entries@[j]),
    {
        let mut out: Vec<(u32, u32, Chunk)> = Vec::new();
        let mut cx: u32 = 0;
        while cx < CHUNKS_X
            invariant
                cx <= CHUNKS_X,
                canvas_wf(self@),
                forall|i: int| 0 <= i < out@.len() ==> entry_ok(#[trigger] out@[i]),
                forall|i: int| 0 <= i < out@.len() ==> (#[trigger] out@[i]).0 < cx,
                forall|i: int, j: int|
                    0 <= i < j < out@.len() ==> grid_before(#[trigger] out@[i], #[trigger] out@[j]),
                entries_map(out@) == self@.restrict(
                    Set::new(|k: u64| exists|i: int, j: int| 0 <= i < cx && 0 <= j < CHUNKS_Y && k == #[trigger] chunk_key(i, j)),
                ),
            decreases CHUNKS_X - cx,
        {
            let mut cy: u32 = 0;
            while cy < CHUNKS_Y
                invariant
                    cx < CHUNKS_X,
                    cy <= CHUNKS_Y,
                    canvas_wf(self@),
                    forall|i: int| 0 <= i < out@.len() ==> entry_ok(#[trigger] out@[i]),
                    forall|i: int|
                        0 <= i < out@.len() ==> (#[trigger] out@[i]).0 < cx || (out@[i].0 == cx && out@[i].1 < cy),
                    forall|i: int, j: int|
                        0 <= i < j < out@.len() ==> grid_before(#[trigger] out@[i], #[trigger] out@[j]),
                    entries_map(out@) == self@.restrict(
                        Set::new(|k: u64| (exists|i: int, j: int| 0 <= i < cx && 0 <= j < CHUNKS_Y && k == #[trigger] chunk_key(i, j))
                            || (exists|j: int| 0 <= j < cy && k == #[trigger] chunk_key(cx as int, j))),
                    ),
                decreases CHUNKS_Y - cy,
            {
                let key = chunk_key_of(cx, cy);
                let ghost before = out@;
                let ghost old_dom = Set::new(|k: u64| (exists|i: int, j: int| 0 <= i < cx && 0 <= j < CHUNKS_Y && k == #[trigger] chunk_key(i, j))
                    || (exists|j: int| 0 <= j < cy && k == #[trigger] chunk_key(cx as int, j)));
                let ghost new_dom = Set::new(|k: u64| (exists|i: int, j: int| 0 <= i < cx && 0 <= j < CHUNKS_Y && k == #[trigger] chunk_key(i, j))
                    || (exists|j: int| 0 <= j < cy + 1 && k == #[trigger] chunk_key(cx as int, j)));
                proof {
                    assert forall|k: u64| #[trigger] new_dom.contains(k) <==> old_dom.contains(k) || k == key by {
                        if k == key {
                            assert(k == chunk_key(cx as int, cy as int));
                        }
                        if exists|j: int| 0 <= j < cy + 1 && k == #[trigger] chunk_key(cx as int, j) {
                            let j = choose|j: int| 0 <= j < cy + 1 && k == #[trigger] chunk_key(cx as int, j);
                            if j != cy {
                                assert(exists|j: int| 0 <= j < cy && k == #[trigger] chunk_key(cx as int, j));
                            }
                        }
                    }
                }
                match self.chunks.get(&key) {
                    Some(c) => {
                        assert(c.pixels@ == self@[key]);
                        let dup = c.duplicate();
                        assert(self@.contains_key(key));
                        assert(dup.pixels@.len() == CHUNK_PIXELS);
                        assert(entry_ok((cx, cy, dup)));
                        out.push((cx, cy, dup));
                        proof {
                            assert(out@.drop_last() =~= before);
                            assert(out@[before.len() as int] == (cx, cy, dup));
                            assert forall|i: int| 0 <= i < out@.len() implies entry_ok(#[trigger] out@[i]) by {
                                if i < before.len() {
                                    assert(out@[i] == before[i]);
                                }
                            }
                            assert forall|i: int, j: int|
                                0 <= i < j < out@.len() implies grid_before(#[trigger] out@[i], #[trigger] out@[j]) by {
                                assert(out@[i] == before[i]);
                                if j < before.len() {
                                    assert(out@[j] == before[j]);
                                }
                            }
                            assert(entries_map(out@) =~= self@.restrict(new_dom));
                        }
                    },
                    None => {
                        proof {
                            assert(entries_map(out@) =~= self@.restrict(new_dom));
                        }
                    },
                }
                cy = cy + 1;
            }
            proof {
                let a = Set::new(|k: u64| (exists|i: int, j: int| 0 <= i < cx && 0 <= j < CHUNKS_Y && k == #[trigger] chunk_key(i, j))
                    || (exists|j: int| 0 <= j < CHUNKS_Y && k == #[trigger] chunk_key(cx as int, j)));
                let b = Set::new(|k: u64| exists|i: int, j: int| 0 <= i < cx + 1 && 0 <= j < CHUNKS_Y && k == #[trigger] chunk_key(i, j));
                assert forall|k: u64| a.contains(k) <==> b.contains(k) by {
                    if b.contains(k) {
                        let (i, j) = choose|i: int, j: int| 0 <= i < cx + 1 && 0 <= j < CHUNKS_Y && k == #[trigger] chunk_key(i, j);
                        if i == cx {
                            assert(exists|j2: int| 0 <= j2 < CHUNKS_Y && k == #[trigger] chunk_key(cx as int, j2));
                        } else {
                            assert(exists|i2: int, j2: int| 0 <= i2 < cx && 0 <= j2 < CHUNKS_Y && k == #[trigger] chunk_key(i2, j2));
                        }
                    }
                }
                assert(a =~= b);
            }
            cx = cx + 1;
        }
        proof {
            let all = Set::new(|k: u64| exists|i: int, j: int| 0 <= i < CHUNKS_X && 0 <= j < CHUNKS_Y && k == #[trigger] chunk_key(i, j));
            assert(self@.restrict(all) =~= self@);
        }
        out
    }
}

/// Whether entry `a` comes before entry `b` in grid order: by chunk column, then row.
pub open spec fn grid_before(a: (u32, u32, Chunk), b: (u32, u32, Chunk)) -> bool {
    a.0 < b.0 || (a.0 == b.0 && a.1 < b.1)
}

/// The canvas rebuilt from a list of chunk entries, when all of them are valid.
pub open spec fn rebuild(entries: Seq<(u32, u32, Chunk)>) -> Option<Map<u64, Seq<Pixel>>> {
    if forall|i: int| 0 <= i < entries.len() ==> entry_ok(#[trigger] entries[i]) {
        Some(entries_map(entries))
    } else {
        None
    }
}

/// Sending a well-formed canvas as its list of chunks and rebuilding it on the other
/// side gives back the same canvas.
pub proof fn law_entries_roundtrip(v: Map<u64, Seq<Pixel>>, entries: Seq<(u32, u32, Chunk)>)
    requires
        canvas_wf(v),
        forall|i: int| 0 <= i < entries.len() ==> entry_ok(#[trigger] entries[i]),
        entries_map(entries) == v,
    ensures
        rebuild(entries) == Some(v),
        canvas_wf(rebuild(entries)->0),
{
    lemma_entries_map_wf(entries);
}

} // verus!
