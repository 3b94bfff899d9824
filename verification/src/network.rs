//! Peer-to-peer side of the canvas: pixel update messages, node settings and the
//! decisions of the swarm's event loop.
use crate::canvas::{canvas_set, canvas_wf, ChunkedCanvas, Pixel, CHUNK_SIZE, WORLD_HEIGHT, WORLD_WIDTH};
use vstd::bytes::{spec_u64_to_le_bytes, u64_to_le_bytes};
use vstd::prelude::*;

verus! {

/// Port of the WebRTC transport.
pub const PORT_WEBRTC: u16 = 9090;
/// Port of the QUIC transport.
pub const PORT_QUIC: u16 = 9091;

/// A pixel write as sent between peers.
#[derive(Clone, Copy, Debug, PartialEq)]
pub struct PixelUpdateMsg {
    pub x: u32,
    pub y: u32,
    pub r: u8,
    pub g: u8,
    pub b: u8,
    pub timestamp: u64,
    pub owner: [u8; 32],
}

/// The pixel a message writes.
pub open spec fn message_pixel(m: PixelUpdateMsg) -> Pixel {
    Pixel { r: m.r, g: m.g, b: m.b, timestamp: m.timestamp, owner: m.owner }
}

impl PixelUpdateMsg {
    /// The pixel this message writes.
    pub fn pixel(&self) -> (p: Pixel)
        ensures
            p == message_pixel(*self),
    {
        Pixel { r: self.r, g: self.g, b: self.b, timestamp: self.timestamp, owner: self.owner }
    }

    /// The message announcing that `pixel` was written at world coordinates `(x, y)`.
    pub fn from_pixel(x: u32, y: u32, pixel: &Pixel) -> (m: PixelUpdateMsg)
        ensures
            m.x == x,
            m.y == y,
            message_pixel(m) == *pixel,
    {
        PixelUpdateMsg {
            x,
            y,
            r: pixel.r,
            g: pixel.g,
            b: pixel.b,
            timestamp: pixel.timestamp,
            owner: pixel.owner,
        }
    }
}

/// Applies a pixel update received from the network to the canvas, last writer wins.
/// Returns whether the canvas changed.
pub fn apply_pixel_update(canvas: &mut ChunkedCanvas, update: &PixelUpdateMsg) -> (updated: bool)
    requires
        canvas_wf(old(canvas)@),
    ensures
        final(canvas)@ == canvas_set(old(canvas)@, update.x as int, update.y as int, message_pixel(*update)),
        updated == crate::canvas::set_takes_effect(
            old(canvas)@,
            update.x as int,
            update.y as int,
            message_pixel(*update),
        ),
        canvas_wf(final(canvas)@),
{
    let pixel = update.pixel();
    canvas.set_pixel(update.x, update.y, pixel)
}

/// World coordinates of the canvas cell `(cell_x, cell_y)` under the pointer, the cell
/// coordinates being relative to the world's centre. Negative results wrap around, as
/// unsigned integers, far outside the world.
pub open spec fn cell_to_world(cell_x: i32, cell_y: i32) -> (u32, u32) {
    (
        (cell_x + (WORLD_WIDTH / 2) as i32) as u32,
        (cell_y + (WORLD_HEIGHT / 2) as i32) as u32,
    )
}

/// Places a pixel of colour `(r, g, b)` at the canvas cell under the pointer, written
/// by nobody in particular at `timestamp`, and returns the message announcing it.
pub fn place_local_pixel(
    canvas: &mut ChunkedCanvas,
    cell_x: i32,
    cell_y: i32,
    r: u8,
    g: u8,
    b: u8,
    timestamp: u64,
) -> (m: PixelUpdateMsg)
    requires
        canvas_wf(old(canvas)@),
        cell_x + WORLD_WIDTH / 2 <= i32::MAX,
        cell_y + WORLD_HEIGHT / 2 <= i32::MAX,
    ensures
        (m.x, m.y) == cell_to_world(cell_x, cell_y),
        message_pixel(m) == (Pixel { r, g, b, timestamp, owner: crate::canvas::NO_OWNER }),
        final(canvas)@ == canvas_set(old(canvas)@, m.x as int, m.y as int, message_pixel(m)),
        canvas_wf(final(canvas)@),
{
    let x = (cell_x + (WORLD_WIDTH / 2) as i32) as u32;
    let y = (cell_y + (WORLD_HEIGHT / 2) as i32) as u32;
    let pixel = Pixel { r, g, b, timestamp, owner: crate::canvas::NO_OWNER };
    canvas.set_pixel(x, y, pixel);
    PixelUpdateMsg::from_pixel(x, y, &pixel)
}

/// The largest canvas response a node accepts, in bytes, for pixels of `pixel_size`
/// bytes: twice the pixels of the whole world plus eight bytes per chunk.
pub open spec fn canvas_response_limit(pixel_size: int) -> int {
    let chunks_x: int = (WORLD_WIDTH / CHUNK_SIZE) as int;
    let rows: int = (chunks_x * WORLD_HEIGHT) / (CHUNK_SIZE as int);
    (pixel_size * WORLD_WIDTH * WORLD_HEIGHT + rows * 8) * 2
}

/// Computes `canvas_response_limit`.
pub fn canvas_response_size_maximum(pixel_size: u64) -> (limit: u64)
    requires
        canvas_response_limit(pixel_size as int) <= u64::MAX,
    ensures
        limit == canvas_response_limit(pixel_size as int),
{
    (pixel_size * (WORLD_WIDTH as u64) * (WORLD_HEIGHT as u64) + ((WORLD_WIDTH / CHUNK_SIZE
        * WORLD_HEIGHT / CHUNK_SIZE * 8) as u64)) * 2
}

/// The settings a node is built from. Addresses and protocols are written as text.
#[derive(Clone, Debug)]
pub struct BevyPlaceNodeConfig {
    pub chunk_topic: String,
    pub peer_topic: String,
    pub pixel_topic: String,
    pub quic_port: u16,
    pub tcp_port: u16,
    pub webrtc_port: u16,
    pub addr: String,
    pub external_addr: Option<String>,
    pub bootstrap_peers: Vec<String>,
    pub kademlia_protocol: String,
}

impl Default for BevyPlaceNodeConfig {
    fn default() -> (c: BevyPlaceNodeConfig)
        ensures
            c.chunk_topic@ == "bevy_r_place_mainnet_chunks"@,
            c.peer_topic@ == "bevy_r_place_mainnet_peers"@,
            c.pixel_topic@ == "bevy_r_place_mainnet_pixels"@,
            c.quic_port == 0,
            c.tcp_port == 0,
            c.webrtc_port == 0,
            c.addr@ == "0.0.0.0"@,
            c.external_addr is None,
            c.bootstrap_peers@.len() == 0,
            c.kademlia_protocol@ == "/ipfs/kad/1.0.0"@,
    {
        BevyPlaceNodeConfig {
            chunk_topic: "bevy_r_place_mainnet_chunks".to_string(),
            peer_topic: "bevy_r_place_mainnet_peers".to_string(),
            pixel_topic: "bevy_r_place_mainnet_pixels".to_string(),
            quic_port: 0,
            tcp_port: 0,
            webrtc_port: 0,
            addr: "0.0.0.0".to_string(),
            external_addr: None,
            bootstrap_peers: Vec::new(),
            kademlia_protocol: "/ipfs/kad/1.0.0".to_string(),
        }
    }
}

/// Which of the node's topics a gossip message came on.
#[derive(Clone, Copy, Debug, PartialEq, Eq)]
pub enum Topic {
    Pixel,
    Chunk,
    Peer,
    Unknown,
}

impl Topic {
    /// The topic a message belongs to, given which topic hashes it matches; the pixel
    /// topic is checked first, then the chunk topic, then the peer topic.
    pub fn classify(is_pixel: bool, is_chunk: bool, is_peer: bool) -> (t: Topic)
        ensures
            t == (if is_pixel {
                Topic::Pixel
            } else if is_chunk {
                Topic::Chunk
            } else if is_peer {
                Topic::Peer
            } else {
                Topic::Unknown
            }),
    {
        if is_pixel {
            Topic::Pixel
        } else if is_chunk {
            Topic::Chunk
        } else if is_peer {
            Topic::Peer
        } else {
            Topic::Unknown
        }
    }
}

/// What the swarm's event loop sees.
#[derive(Clone, Copy, Debug, PartialEq, Eq)]
pub enum SwarmInput {
    /// The application handed over a pixel update to publish.
    OutboundPixel,
    /// The application answered a canvas request with its canvas.
    CanvasAnswer,
    /// A gossip message arrived.
    GossipMessage { topic: Topic },
    /// A peer subscribed to a topic; `chunk_topic` says whether it was the chunk topic.
    Subscribed { chunk_topic: bool },
    /// Local discovery found a peer; `is_local` says whether it is this node.
    PeerDiscovered { is_local: bool },
    /// Local discovery lost a peer.
    PeerExpired,
    /// The node listens on a new address.
    NewListenAddr,
    /// Identifying a peer timed out.
    IdentifyTimeout,
    /// A peer asked for the canvas history.
    CanvasRequested,
    /// A peer sent the canvas history.
    CanvasReceived,
    /// Anything else.
    Other,
}

/// What the swarm's event loop does in answer.
#[derive(Clone, Copy, Debug, PartialEq, Eq)]
pub enum SwarmAction {
    /// Encode the pixel update and publish it on the pixel topic.
    PublishPixel,
    /// Send the canvas back on the request's channel.
    SendCanvasResponse,
    /// Decode the message as a pixel update and hand it to the application if it decodes.
    ForwardPixel,
    /// Ask the message's source for the canvas history.
    RequestCanvas,
    /// Tell the application a peer subscribed; then, if `announce`, publish on the chunk
    /// topic that this node holds the canvas history.
    ForwardSubscription { announce: bool },
    /// Make the peer an explicit gossip peer, and dial it if `dial`.
    AddExplicitPeer { dial: bool },
    /// Stop treating the peer as an explicit gossip peer.
    RemoveExplicitPeer,
    /// Record the listen address, with its host replaced by the external address.
    AddExternalAddress,
    /// Remove the peer from the routing table.
    RemoveFromRouting,
    /// Hand the canvas request's channel to the application.
    ForwardCanvasRequest,
    /// Hand the received canvas to the application.
    ForwardCanvas,
    /// Nothing beyond logging.
    Ignore,
}

/// The swarm's memory: whether this node holds the canvas history.
#[derive(Clone, Copy, Debug, PartialEq, Eq)]
pub struct SwarmState {
    pub initialized: bool,
}

/// The action the swarm takes on `input` in state `s`, with whether the node has an
/// external address configured.
pub open spec fn swarm_action(s: SwarmState, input: SwarmInput, has_external_addr: bool) -> SwarmAction {
    match input {
        SwarmInput::OutboundPixel => SwarmAction::PublishPixel,
        SwarmInput::CanvasAnswer => SwarmAction::SendCanvasResponse,
        SwarmInput::GossipMessage { topic } => match topic {
            Topic::Pixel => SwarmAction::ForwardPixel,
            Topic::Chunk => if s.initialized {
                SwarmAction::Ignore
            } else {
                SwarmAction::RequestCanvas
            },
            _ => SwarmAction::Ignore,
        },
        SwarmInput::Subscribed { chunk_topic } => SwarmAction::ForwardSubscription {
            announce: s.initialized && chunk_topic,
        },
        SwarmInput::PeerDiscovered { is_local } => SwarmAction::AddExplicitPeer { dial: !is_local },
        SwarmInput::PeerExpired => SwarmAction::RemoveExplicitPeer,
        SwarmInput::NewListenAddr => if has_external_addr {
            SwarmAction::AddExternalAddress
        } else {
            SwarmAction::Ignore
        },
        SwarmInput::IdentifyTimeout => SwarmAction::RemoveFromRouting,
        SwarmInput::CanvasRequested => if s.initialized {
            SwarmAction::ForwardCanvasRequest
        } else {
            SwarmAction::Ignore
        },
        SwarmInput::CanvasReceived => SwarmAction::ForwardCanvas,
        SwarmInput::Other => SwarmAction::Ignore,
    }
}

/// The swarm's state after `input`: receiving the canvas history initializes the node.
pub open spec fn swarm_next(s: SwarmState, input: SwarmInput) -> SwarmState {
    match input {
        SwarmInput::CanvasReceived => SwarmState { initialized: true },
        _ => s,
    }
}

impl SwarmState {
    /// A node starts out holding the canvas history exactly when it has no bootstrap peers.
    pub fn new(bootstrap_peer_count: usize) -> (s: SwarmState)
        ensures
            s.initialized == (bootstrap_peer_count == 0),
    {
        SwarmState { initialized: bootstrap_peer_count == 0 }
    }

    /// Decides what to do on `input` and moves to the next state.
    pub fn handle(&mut self, input: SwarmInput, has_external_addr: bool) -> (action: SwarmAction)
        ensures
            action == swarm_action(*old(self), input, has_external_addr),
            *final(self) == swarm_next(*old(self), input),
    {
        let action = match input {
            SwarmInput::OutboundPixel => SwarmAction::PublishPixel,
            SwarmInput::CanvasAnswer => SwarmAction::SendCanvasResponse,
            SwarmInput::GossipMessage { topic } => match topic {
                Topic::Pixel => SwarmAction::ForwardPixel,
                Topic::Chunk => if self.initialized {
                    SwarmAction::Ignore
                } else {
                    SwarmAction::RequestCanvas
                },
                _ => SwarmAction::Ignore,
            },
            SwarmInput::Subscribed { chunk_topic } => SwarmAction::ForwardSubscription {
                announce: self.initialized && chunk_topic,
            },
            SwarmInput::PeerDiscovered { is_local } => SwarmAction::AddExplicitPeer { dial: !is_local },
            SwarmInput::PeerExpired => SwarmAction::RemoveExplicitPeer,
            SwarmInput::NewListenAddr => if has_external_addr {
                SwarmAction::AddExternalAddress
            } else {
                SwarmAction::Ignore
            },
            SwarmInput::IdentifyTimeout => SwarmAction::RemoveFromRouting,
            SwarmInput::CanvasRequested => if self.initialized {
                SwarmAction::ForwardCanvasRequest
            } else {
                SwarmAction::Ignore
            },
            SwarmInput::CanvasReceived => {
                self.initialized = true;
                SwarmAction::ForwardCanvas
            },
            SwarmInput::Other => SwarmAction::Ignore,
        };
        action
    }
}

/// Pixels flow both ways: every pixel the application hands over is published on the
/// pixel topic, and every gossip message on the pixel topic is passed to the
/// application, whatever the node's state.
pub proof fn law_swarm_moves_pixels(s: SwarmState, has_external_addr: bool)
    ensures
        swarm_action(s, SwarmInput::OutboundPixel, has_external_addr) == SwarmAction::PublishPixel,
        swarm_action(s, SwarmInput::GossipMessage { topic: Topic::Pixel }, has_external_addr)
            == SwarmAction::ForwardPixel,
        swarm_next(s, SwarmInput::OutboundPixel) == s,
        swarm_next(s, SwarmInput::GossipMessage { topic: Topic::Pixel }) == s,
{
}

/// The canvas history is exchanged: a canvas the application hands back for a pending
/// request is always sent on the request's channel; a peer's request is passed to the
/// application exactly when the node holds the history; an announcement of the history
/// is answered with a request exactly when the node lacks it; and a received history is
/// always passed to the application and makes the node hold the history.
pub proof fn law_swarm_exchanges_history(s: SwarmState, has_external_addr: bool)
    ensures
        swarm_action(s, SwarmInput::CanvasAnswer, has_external_addr) == SwarmAction::SendCanvasResponse,
        (swarm_action(s, SwarmInput::CanvasRequested, has_external_addr)
            == SwarmAction::ForwardCanvasRequest) <==> s.initialized,
        !s.initialized ==> swarm_action(s, SwarmInput::CanvasRequested, has_external_addr)
            == SwarmAction::Ignore,
        (swarm_action(s, SwarmInput::GossipMessage { topic: Topic::Chunk }, has_external_addr)
            == SwarmAction::RequestCanvas) <==> !s.initialized,
        s.initialized ==> swarm_action(s, SwarmInput::GossipMessage { topic: Topic::Chunk }, has_external_addr)
            == SwarmAction::Ignore,
        swarm_action(s, SwarmInput::CanvasReceived, has_external_addr) == SwarmAction::ForwardCanvas,
        swarm_next(s, SwarmInput::CanvasReceived).initialized,
        forall|chunk_topic: bool|
            #[trigger] swarm_action(s, SwarmInput::Subscribed { chunk_topic }, has_external_addr)
                == (SwarmAction::ForwardSubscription { announce: s.initialized && chunk_topic }),
{
}

/// Peers found on the local network become explicit gossip peers, and are dialled unless
/// the peer found is this node; peers that expire stop being explicit gossip peers; a
/// peer that fails to identify itself leaves the routing table. None of this changes
/// whether the node holds the history.
pub proof fn law_swarm_tracks_peers(s: SwarmState, has_external_addr: bool)
    ensures
        forall|is_local: bool|
            #[trigger] swarm_action(s, SwarmInput::PeerDiscovered { is_local }, has_external_addr)
                == (SwarmAction::AddExplicitPeer { dial: !is_local }),
        swarm_action(s, SwarmInput::PeerExpired, has_external_addr) == SwarmAction::RemoveExplicitPeer,
        swarm_action(s, SwarmInput::IdentifyTimeout, has_external_addr) == SwarmAction::RemoveFromRouting,
        swarm_next(s, SwarmInput::PeerExpired) == s,
        swarm_next(s, SwarmInput::IdentifyTimeout) == s,
        forall|is_local: bool| #[trigger] swarm_next(s, SwarmInput::PeerDiscovered { is_local }) == s,
{
}

/// A new listen address is recorded with the external address exactly when one is
/// configured; gossip on other topics and other events are only logged; only a received
/// history changes the node's state.
pub proof fn law_swarm_addresses_and_rest(s: SwarmState, input: SwarmInput, has_external_addr: bool)
    ensures
        swarm_action(s, SwarmInput::NewListenAddr, has_external_addr) == if has_external_addr {
            SwarmAction::AddExternalAddress
        } else {
            SwarmAction::Ignore
        },
        swarm_action(s, SwarmInput::GossipMessage { topic: Topic::Peer }, has_external_addr)
            == SwarmAction::Ignore,
        swarm_action(s, SwarmInput::GossipMessage { topic: Topic::Unknown }, has_external_addr)
            == SwarmAction::Ignore,
        swarm_action(s, SwarmInput::Other, has_external_addr) == SwarmAction::Ignore,
        input != SwarmInput::CanvasReceived ==> swarm_next(s, input) == s,
{
}

/// A node that holds the canvas history never loses it.
pub proof fn law_swarm_stays_initialized(s: SwarmState, input: SwarmInput)
    requires
        s.initialized,
    ensures
        swarm_next(s, input).initialized,
{
}

/// A node answers canvas requests only once it holds the canvas history, and asks
/// for the history only while it does not hold it.
pub proof fn law_swarm_history_exchange(s: SwarmState, input: SwarmInput, has_external_addr: bool)
    ensures
        swarm_action(s, input, has_external_addr) == SwarmAction::ForwardCanvasRequest ==> s.initialized,
        swarm_action(s, input, has_external_addr) == SwarmAction::RequestCanvas ==> !s.initialized,
        swarm_action(s, input, has_external_addr) == (SwarmAction::ForwardSubscription { announce: true })
            ==> s.initialized,
{
}

/// The announcement that a node holds the canvas history: a time in seconds, as eight
/// big-endian bytes.
pub open spec fn timestamp_bytes(secs: u64) -> Seq<u8> {
    spec_u64_to_le_bytes(secs).reverse()
}

/// Encodes `secs` as the announcement that a node holds the canvas history.
pub fn timestamp_as_vec(secs: u64) -> (v: Vec<u8>)
    ensures
        v@ == timestamp_bytes(secs),
{
    let le = u64_to_le_bytes(secs);
    let mut v: Vec<u8> = Vec::new();
    let mut i: usize = le.len();
    while i > 0
        invariant
            i <= le@.len(),
            le@ == spec_u64_to_le_bytes(secs),
            v@ == le@.subrange(i as int, le@.len() as int).reverse(),
        decreases i,
    {
        i = i - 1;
        v.push(le[i]);
        assert(v@ =~= le@.subrange(i as int, le@.len() as int).reverse());
    }
    assert(le@.subrange(0, le@.len() as int) =~= le@);
    v
}

/// The announcement that a node holds the canvas history, stamped with the current time.
pub fn current_timestamp_as_vec() -> (v: Vec<u8>)
    ensures
        exists|secs: u64| v@ == timestamp_bytes(secs),
{
    timestamp_as_vec(crate::time::epoch_time_seconds())
}

} // verus!
