use bevy_r_place::canvas::{chunk_key_of, ChunkedCanvas, Pixel, CHUNK_SIZE, NO_OWNER};
use bevy_r_place::codec::Codec;
use bevy_r_place::network::{
    apply_pixel_update, canvas_response_size_maximum, current_timestamp_as_vec, place_local_pixel,
    timestamp_as_vec, BevyPlaceNodeConfig, PixelUpdateMsg, SwarmAction, SwarmInput, SwarmState,
    Topic,
};

fn pixel_at(canvas: &ChunkedCanvas, wx: u32, wy: u32) -> Pixel {
    let chunk = canvas.chunks.get(&chunk_key_of(wx / CHUNK_SIZE, wy / CHUNK_SIZE)).unwrap();
    chunk.pixels[((wy % CHUNK_SIZE) * CHUNK_SIZE + wx % CHUNK_SIZE) as usize]
}

/// One node of a simulated swarm: its canvas, its decisions and the messages it received.
struct Node {
    canvas: ChunkedCanvas,
    swarm: SwarmState,
    inbound: Vec<PixelUpdateMsg>,
}

impl Node {
    fn new(bootstrap_peers: usize) -> Node {
        Node { canvas: ChunkedCanvas::new(), swarm: SwarmState::new(bootstrap_peers), inbound: vec![] }
    }

    fn receive(&mut self, msg: &PixelUpdateMsg) {
        let topic = Topic::classify(true, false, false);
        if self.swarm.handle(SwarmInput::GossipMessage { topic }, false) == SwarmAction::ForwardPixel {
            self.inbound.push(*msg);
            apply_pixel_update(&mut self.canvas, msg);
        }
    }
}

fn publish(from: &mut Node, msg: PixelUpdateMsg, others: &mut [&mut Node]) {
    assert_eq!(from.swarm.handle(SwarmInput::OutboundPixel, false), SwarmAction::PublishPixel);
    for node in others.iter_mut() {
        node.receive(&msg);
    }
}

// Two nodes exchange a pixel each; the nodes' decisions and canvases run in memory,
// with the messages handed from one to the other in place of a network.
#[test]
fn test_two_nodes() {
    let mut node1 = Node::new(0);
    let mut node2 = Node::new(0);
    let msg_from_1 = PixelUpdateMsg { x: 42, y: 24, r: 123, g: 45, b: 67, timestamp: 1111, owner: [1; 32] };
    publish(&mut node1, msg_from_1, &mut [&mut node2]);
    let msg_from_2 = PixelUpdateMsg { x: 10, y: 20, r: 111, g: 222, b: 33, timestamp: 2222, owner: [2; 32] };
    publish(&mut node2, msg_from_2, &mut [&mut node1]);
    assert!(node2.inbound.contains(&msg_from_1), "swarm2 did not receive the message from swarm1");
    assert!(node1.inbound.contains(&msg_from_2), "swarm1 did not receive the message from swarm2");
    assert_eq!(pixel_at(&node2.canvas, 42, 24), msg_from_1.pixel());
    assert_eq!(pixel_at(&node1.canvas, 10, 20), msg_from_2.pixel());
}

// A bootstrap node and the nodes that join it, run in memory as above: every node
// receives every other node's pixel.
#[test]
fn test_n_nodes_with_bootstrap() {
    let num_nodes = 30;
    let mut nodes: Vec<Node> = vec![Node::new(0)];
    for _ in 0..(num_nodes - 1) {
        nodes.push(Node::new(1));
    }
    // joining nodes ask the bootstrap node for the canvas history, which it holds
    for i in 1..num_nodes {
        assert_eq!(
            nodes[i].swarm.handle(SwarmInput::GossipMessage { topic: Topic::Chunk }, false),
            SwarmAction::RequestCanvas
        );
        assert_eq!(nodes[0].swarm.handle(SwarmInput::CanvasRequested, false), SwarmAction::ForwardCanvasRequest);
        assert_eq!(nodes[i].swarm.handle(SwarmInput::CanvasReceived, false), SwarmAction::ForwardCanvas);
        assert!(nodes[i].swarm.initialized);
    }
    for i in 0..num_nodes {
        let msg = PixelUpdateMsg {
            x: i as u32,
            y: i as u32,
            r: (i * 10) as u8,
            g: (i * 20) as u8,
            b: (i * 30) as u8,
            timestamp: 1000 + i as u64,
            owner: [i as u8; 32],
        };
        let (before, rest) = nodes.split_at_mut(i);
        let (from, after) = rest.split_first_mut().unwrap();
        let mut others: Vec<&mut Node> = before.iter_mut().chain(after.iter_mut()).collect();
        publish(from, msg, &mut others);
    }
    for (node_idx, node) in nodes.iter().enumerate() {
        for n in 0..num_nodes {
            let owner = [n as u8; 32];
            if n == node_idx {
                continue;
            }
            assert!(
                node.inbound.iter().any(|m| m.owner == owner),
                "node {node_idx} did not receive message from owner: {owner:?}"
            );
        }
    }
}

#[test]
fn swarm_decisions() {
    let mut s = SwarmState::new(2);
    assert!(!s.initialized);
    assert_eq!(s.handle(SwarmInput::CanvasRequested, false), SwarmAction::Ignore);
    assert_eq!(s.handle(SwarmInput::Subscribed { chunk_topic: true }, false), SwarmAction::ForwardSubscription { announce: false });
    assert_eq!(s.handle(SwarmInput::PeerDiscovered { is_local: false }, false), SwarmAction::AddExplicitPeer { dial: true });
    assert_eq!(s.handle(SwarmInput::PeerDiscovered { is_local: true }, false), SwarmAction::AddExplicitPeer { dial: false });
    assert_eq!(s.handle(SwarmInput::NewListenAddr, true), SwarmAction::AddExternalAddress);
    assert_eq!(s.handle(SwarmInput::NewListenAddr, false), SwarmAction::Ignore);
    assert_eq!(s.handle(SwarmInput::CanvasReceived, false), SwarmAction::ForwardCanvas);
    assert!(s.initialized);
    assert_eq!(s.handle(SwarmInput::GossipMessage { topic: Topic::Chunk }, false), SwarmAction::Ignore);
    assert_eq!(s.handle(SwarmInput::Subscribed { chunk_topic: true }, false), SwarmAction::ForwardSubscription { announce: true });
    assert_eq!(s.handle(SwarmInput::IdentifyTimeout, false), SwarmAction::RemoveFromRouting);
    assert_eq!(s.handle(SwarmInput::Other, false), SwarmAction::Ignore);
    assert!(s.initialized);
    assert_eq!(Topic::classify(true, true, true), Topic::Pixel);
    assert_eq!(Topic::classify(false, true, true), Topic::Chunk);
    assert_eq!(Topic::classify(false, false, true), Topic::Peer);
    assert_eq!(Topic::classify(false, false, false), Topic::Unknown);
}

#[test]
fn pixel_updates_from_the_network() {
    let mut canvas = ChunkedCanvas::new();
    let m = PixelUpdateMsg { x: 5, y: 6, r: 1, g: 2, b: 3, timestamp: 10, owner: [3; 32] };
    assert!(apply_pixel_update(&mut canvas, &m));
    assert!(!apply_pixel_update(&mut canvas, &m));
    let old = PixelUpdateMsg { timestamp: 9, r: 9, ..m };
    assert!(!apply_pixel_update(&mut canvas, &old));
    assert_eq!(pixel_at(&canvas, 5, 6), m.pixel());
    assert!(!apply_pixel_update(&mut canvas, &PixelUpdateMsg { x: 5000, ..m }));
    assert_eq!(PixelUpdateMsg::from_pixel(5, 6, &m.pixel()), m);
}

#[test]
fn local_pixels_are_centred() {
    let mut canvas = ChunkedCanvas::new();
    let m = place_local_pixel(&mut canvas, -512, 511, 7, 8, 9, 99);
    assert_eq!((m.x, m.y), (0, 1023));
    assert_eq!(m.pixel(), Pixel { r: 7, g: 8, b: 9, timestamp: 99, owner: NO_OWNER });
    assert_eq!(pixel_at(&canvas, 0, 1023), m.pixel());
    let outside = place_local_pixel(&mut canvas, -513, 0, 1, 1, 1, 100);
    assert_eq!(outside.x, u32::MAX);
}

#[test]
fn response_limit_and_codec() {
    let pixel_size = std::mem::size_of::<Pixel>() as u64;
    assert_eq!(canvas_response_size_maximum(48), (48 * 1024 * 1024 + 16 * 16 * 8) * 2);
    assert!(canvas_response_size_maximum(pixel_size) > 0);
    let codec: Codec<u8, u8> = Codec::default();
    assert_eq!(codec.request_size_maximum(), 1024 * 1024);
    assert_eq!(codec.response_size_maximum(), 10 * 1024 * 1024);
    let codec = codec.set_response_size_maximum(77).set_request_size_maximum(5);
    assert_eq!((codec.request_size_maximum(), codec.response_size_maximum()), (5, 77));
    let copy = codec.clone();
    assert_eq!((copy.request_size_maximum(), copy.response_size_maximum()), (5, 77));
}

#[test]
fn node_config_defaults() {
    let c = BevyPlaceNodeConfig::default();
    assert_eq!(c.chunk_topic, "bevy_r_place_mainnet_chunks");
    assert_eq!(c.peer_topic, "bevy_r_place_mainnet_peers");
    assert_eq!(c.pixel_topic, "bevy_r_place_mainnet_pixels");
    assert_eq!((c.quic_port, c.tcp_port, c.webrtc_port), (0, 0, 0));
    assert_eq!(c.addr, "0.0.0.0");
    assert!(c.external_addr.is_none());
    assert!(c.bootstrap_peers.is_empty());
    assert_eq!(c.kademlia_protocol, "/ipfs/kad/1.0.0");
}

#[test]
fn timestamp_announcement() {
    assert_eq!(timestamp_as_vec(0x0102030405060708), vec![1, 2, 3, 4, 5, 6, 7, 8]);
    assert_eq!(current_timestamp_as_vec().len(), 8);
}
