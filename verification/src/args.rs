//! The node's command-line settings and the bootstrap peers they select.
use vstd::prelude::*;

verus! {

/// The settings a node runs with.
#[derive(Clone, Debug)]
pub struct BevyPlaceConfig {
    pub address: String,
    pub quic_port: u16,
    pub tcp_port: u16,
    pub ws_port: u16,
    pub ws_path: String,
    pub wss_port: u16,
    pub wss_path: String,
    pub webrtc_pem_certificate_path: Option<String>,
    pub webrtc_port: u16,
    pub health_check_port: u16,
    pub bootstrap: bool,
    pub network: String,
    pub bootstrap_nodes: Vec<String>,
    pub headless: bool,
    pub mainnet: bool,
    pub artifact_s3_bucket: Option<String>,
    pub artifact_folder: Option<String>,
    pub snapshot_interval_seconds: Option<u64>,
    pub restore_latest_snapshot: bool,
    pub certificate_chain_path: Option<String>,
    pub private_key_path: Option<String>,
}

/// The local bootstrap addresses a node tries by default.
pub open spec fn default_bootstrap_nodes() -> Seq<Seq<char>> {
    seq![
        "/ip4/127.0.0.1/udp/4201/quic-v1"@,
        "/ip4/127.0.0.1/tcp/4202"@,
        "/ip4/127.0.0.1/tcp/4203/ws"@,
        "/ip4/127.0.0.1/tcp/4204/wss"@,
        "/ip4/127.0.0.1/udp/4205/webrtc-direct/certhash/uEiCMKpbQeJQuNNZSWyljeixDlNYLFllcZDX5LGGwwxTcmQ"@,
    ]
}

/// The addresses of the public network's bootstrap nodes.
pub open spec fn mainnet_nodes() -> Seq<Seq<char>> {
    seq![
        "/dns4/bevy-r-place.mosure.dev/tcp/4203/ws"@,
        "/dns4/bevy-r-place.mosure.dev/tcp/4204/wss"@,
        "/dns4/raw.bevy-r-place.mosure.dev/udp/4201/quic-v1"@,
        "/dns4/raw.bevy-r-place.mosure.dev/tcp/4202"@,
        "/dns4/raw.bevy-r-place.mosure.dev/udp/4205/webrtc-direct/certhash/uEiCMKpbQeJQuNNZSWyljeixDlNYLFllcZDX5LGGwwxTcmQ"@,
    ]
}

/// The texts of a list of strings.
pub open spec fn texts(v: Seq<String>) -> Seq<Seq<char>> {
    v.map_values(|s: String| s@)
}

/// The bootstrap peers a node with settings `c` connects to: none for a bootstrap node;
/// the public network's nodes when `mainnet` is set; otherwise the listed nodes, followed
/// by `network` when it is not empty.
pub open spec fn bootstrap_selection(c: BevyPlaceConfig) -> Seq<Seq<char>> {
    if c.bootstrap {
        Seq::empty()
    } else if c.mainnet {
        mainnet_nodes()
    } else if c.network@.len() == 0 {
        texts(c.bootstrap_nodes@)
    } else {
        texts(c.bootstrap_nodes@).push(c.network@)
    }
}

/// Whom a node bootstraps from: a bootstrap node from nobody; a node on the public
/// network from the five public nodes, whatever else is listed; any other node from
/// every listed node, in order, and then `network` when it is given, and from nothing
/// else.
pub proof fn law_bootstrap_peers(c: BevyPlaceConfig)
    ensures
        c.bootstrap ==> bootstrap_selection(c).len() == 0,
        !c.bootstrap && c.mainnet ==> bootstrap_selection(c) == mainnet_nodes() && bootstrap_selection(c).len()
            == 5,
        !c.bootstrap && !c.mainnet ==> {
            &&& bootstrap_selection(c).len() == c.bootstrap_nodes@.len() + if c.network@.len() == 0 {
                0int
            } else {
                1int
            }
            &&& forall|i: int|
                0 <= i < c.bootstrap_nodes@.len() ==> #[trigger] bootstrap_selection(c)[i]
                    == c.bootstrap_nodes@[i]@
            &&& c.network@.len() != 0 ==> bootstrap_selection(c).last() == c.network@
        },
{
}

fn text_list(items: &[&str]) -> (v: Vec<String>)
    ensures
        v@.len() == items@.len(),
        forall|i: int| 0 <= i < items@.len() ==> #[trigger] v@[i]@ == items@[i]@,
{
    let mut v: Vec<String> = Vec::new();
    let mut i: usize = 0;
    while i < items.len()
        invariant
            i <= items@.len(),
            v@.len() == i,
            forall|j: int| 0 <= j < i ==> #[trigger] v@[j]@ == items@[j]@,
        decreases items@.len() - i,
    {
        v.push(items[i].to_string());
        i = i + 1;
    }
    v
}

impl BevyPlaceConfig {
    /// The bootstrap peers this node connects to.
    pub fn bootstrap_peer_addresses(&self) -> (peers: Vec<String>)
        ensures
            texts(peers@) == bootstrap_selection(*self),
    {
        if self.bootstrap {
            let v: Vec<String> = Vec::new();
            assert(texts(v@) =~= bootstrap_selection(*self));
            return v;
        }
        if self.mainnet {
            let v = text_list(
                &[
                    "/dns4/bevy-r-place.mosure.dev/tcp/4203/ws",
                    "/dns4/bevy-r-place.mosure.dev/tcp/4204/wss",
                    "/dns4/raw.bevy-r-place.mosure.dev/udp/4201/quic-v1",
                    "/dns4/raw.bevy-r-place.mosure.dev/tcp/4202",
                    "/dns4/raw.bevy-r-place.mosure.dev/udp/4205/webrtc-direct/certhash/uEiCMKpbQeJQuNNZSWyljeixDlNYLFllcZDX5LGGwwxTcmQ",
                ],
            );
            assert(texts(v@) =~= bootstrap_selection(*self));
            return v;
        }
        let mut v: Vec<String> = Vec::new();
        let mut i: usize = 0;
        while i < self.bootstrap_nodes.len()
            invariant
                i <= self.bootstrap_nodes@.len(),
                v@.len() == i,
                forall|j: int| 0 <= j < i ==> #[trigger] v@[j]@ == self.bootstrap_nodes@[j]@,
            decreases self.bootstrap_nodes@.len() - i,
        {
            v.push(self.bootstrap_nodes[i].clone());
            i = i + 1;
        }
        assert(texts(v@) =~= texts(self.bootstrap_nodes@));
        if !self.network.as_str().is_empty() {
            v.push(self.network.clone());
            assert(texts(v@) =~= bootstrap_selection(*self));
        }
        v
    }
}

impl Default for BevyPlaceConfig {
    fn default() -> (c: BevyPlaceConfig)
        ensures
            c.address@ == "0.0.0.0"@,
            c.quic_port == 4201,
            c.tcp_port == 4202,
            c.ws_port == 4203,
            c.ws_path@ == "/"@,
            c.wss_port == 4204,
            c.wss_path@ == "/"@,
            c.webrtc_pem_certificate_path is None,
            c.webrtc_port == 4205,
            c.health_check_port == 4206,
            !c.bootstrap,
            c.network@ == ""@,
            texts(c.bootstrap_nodes@) == default_bootstrap_nodes(),
            !c.headless,
            !c.mainnet,
            c.artifact_s3_bucket is None,
            c.artifact_folder is None,
            c.snapshot_interval_seconds is None,
            !c.restore_latest_snapshot,
            c.certificate_chain_path is None,
            c.private_key_path is None,
    {
        let bootstrap_nodes = text_list(
            &[
                "/ip4/127.0.0.1/udp/4201/quic-v1",
                "/ip4/127.0.0.1/tcp/4202",
                "/ip4/127.0.0.1/tcp/4203/ws",
                "/ip4/127.0.0.1/tcp/4204/wss",
                "/ip4/127.0.0.1/udp/4205/webrtc-direct/certhash/uEiCMKpbQeJQuNNZSWyljeixDlNYLFllcZDX5LGGwwxTcmQ",
            ],
        );
        assert(texts(bootstrap_nodes@) =~= default_bootstrap_nodes());
        BevyPlaceConfig {
            address: "0.0.0.0".to_string(),
            quic_port: 4201,
            tcp_port: 4202,
            ws_port: 4203,
            ws_path: "/".to_string(),
            wss_port: 4204,
            wss_path: "/".to_string(),
            webrtc_pem_certificate_path: None,
            webrtc_port: 4205,
            health_check_port: 4206,
            bootstrap: false,
            network: "".to_string(),
            bootstrap_nodes,
            headless: false,
            mainnet: false,
            artifact_s3_bucket: None,
            artifact_folder: None,
            snapshot_interval_seconds: None,
            restore_latest_snapshot: false,
            certificate_chain_path: None,
            private_key_path: None,
        }
    }
}

} // verus!
