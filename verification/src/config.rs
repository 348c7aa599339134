//! The client's settings, and where its watch folders live.
//!
//! Paths are `/`-separated text; the caller finds the application
//! directories and reads or writes the settings file.
use vstd::prelude::*;

verus! {

/// The column the torrent list is sorted by.
#[derive(Clone, Copy, Debug, PartialEq, Eq, Default, Structural)]
pub enum TorrentSortColumn {
    Name,
    #[default]
    Up,
    Down,
}

/// The column the peer list is sorted by.
#[derive(Clone, Copy, Debug, PartialEq, Eq, Default, Structural)]
pub enum PeerSortColumn {
    Flags,
    Completed,
    Address,
    Client,
    Action,
    #[default]
    UL,
    DL,
}

/// Sort order.
#[derive(Clone, Copy, Debug, PartialEq, Eq, Default, Structural)]
pub enum SortDirection {
    #[default]
    Ascending,
    Descending,
}

/// Whether a torrent should run.
#[derive(Clone, Copy, Debug, PartialEq, Eq, Default, Structural)]
pub enum TorrentControlState {
    Running,
    Paused,
    #[default]
    Stopped,
}

/// How eagerly one file of a torrent is downloaded.
#[derive(Clone, Copy, Debug, PartialEq, Eq, Default, Structural)]
pub enum FilePriority {
    #[default]
    Normal,
    High,
    Skip,
}

/// The saved settings of one torrent.
#[derive(Clone, Debug, Default)]
pub struct TorrentSettings {
    pub torrent_or_magnet: String,
    pub name: String,
    pub validation_status: bool,
    /// Where its data goes; when absent, the default download folder.
    pub download_path: Option<String>,
    /// Priorities of the files that have one, by file index, at most one per
    /// file and in increasing index order.
    pub file_priorities: Vec<(usize, FilePriority)>,
    /// The folder the files are grouped under, if any.
    pub container_name: Option<String>,
    pub torrent_control_state: TorrentControlState,
}

/// Two optional texts that are equal.
pub open spec fn same_text(a: Option<String>, b: Option<String>) -> bool {
    match (a, b) {
        (Some(x), Some(y)) => x@ == y@,
        (None, None) => true,
        _ => false,
    }
}

impl TorrentSettings {
    /// Whether two torrent settings are equal, field by field.
    pub open spec fn same(self, other: TorrentSettings) -> bool {
        &&& self.torrent_or_magnet@ == other.torrent_or_magnet@
        &&& self.name@ == other.name@
        &&& self.validation_status == other.validation_status
        &&& same_text(self.download_path, other.download_path)
        &&& self.file_priorities@ == other.file_priorities@
        &&& same_text(self.container_name, other.container_name)
        &&& self.torrent_control_state == other.torrent_control_state
    }

    /// A copy.
    pub fn duplicate(&self) -> (r: TorrentSettings)
        ensures
            r.same(*self),
    {
        TorrentSettings {
            torrent_or_magnet: self.torrent_or_magnet.clone(),
            name: self.name.clone(),
            validation_status: self.validation_status,
            download_path: copy_text(&self.download_path),
            file_priorities: copy_priorities(&self.file_priorities),
            container_name: copy_text(&self.container_name),
            torrent_control_state: self.torrent_control_state,
        }
    }
}

/// A copy of an optional text.
pub fn copy_text(t: &Option<String>) -> (r: Option<String>)
    ensures
        same_text(r, *t),
{
    match t {
        Some(s) => Some(s.clone()),
        None => None,
    }
}

/// Whether two optional texts are equal.
pub fn text_eq(a: &Option<String>, b: &Option<String>) -> (r: bool)
    ensures
        r == same_text(*a, *b),
{
    match (a, b) {
        (Some(x), Some(y)) => *x == *y,
        (None, None) => true,
        _ => false,
    }
}

/// A copy of a priority list.
pub fn copy_priorities(v: &Vec<(usize, FilePriority)>) -> (r: Vec<(usize, FilePriority)>)
    ensures
        r@ == v@,
{
    let mut r: Vec<(usize, FilePriority)> = Vec::new();
    let mut i: usize = 0;
    while i < v.len()
        invariant
            i <= v@.len(),
            r@ == v@.subrange(0, i as int),
        decreases v@.len() - i,
    {
        r.push(v[i]);
        i = i + 1;
    }
    assert(r@ =~= v@);
    r
}

/// Whether two priority lists are equal.
pub fn priorities_eq(a: &Vec<(usize, FilePriority)>, b: &Vec<(usize, FilePriority)>) -> (r: bool)
    ensures
        r == (a@ == b@),
{
    if a.len() != b.len() {
        return false;
    }
    let mut i: usize = 0;
    while i < a.len()
        invariant
            a@.len() == b@.len(),
            i <= a@.len(),
            forall|j: int| 0 <= j < i ==> a@[j] == b@[j],
        decreases a@.len() - i,
    {
        if a[i].0 != b[i].0 || a[i].1 != b[i].1 {
            return false;
        }
        i = i + 1;
    }
    assert(a@ =~= b@);
    true
}

/// Whether two torrent settings are equal.
pub fn settings_eq(a: &TorrentSettings, b: &TorrentSettings) -> (r: bool)
    ensures
        r == a.same(*b),
{
    a.torrent_or_magnet == b.torrent_or_magnet && a.name == b.name && a.validation_status
        == b.validation_status && text_eq(&a.download_path, &b.download_path) && priorities_eq(
        &a.file_priorities,
        &b.file_priorities,
    ) && text_eq(&a.container_name, &b.container_name) && a.torrent_control_state
        == b.torrent_control_state
}

/// The client's settings.
#[derive(Debug, Clone)]
pub struct Settings {
    pub client_id: String,
    pub client_port: u16,
    pub torrents: Vec<TorrentSettings>,
    pub lifetime_downloaded: u64,
    pub lifetime_uploaded: u64,
    pub private_client: bool,
    pub torrent_sort_column: TorrentSortColumn,
    pub torrent_sort_direction: SortDirection,
    pub peer_sort_column: PeerSortColumn,
    pub peer_sort_direction: SortDirection,
    pub watch_folder: Option<String>,
    pub default_download_folder: Option<String>,
    pub max_connected_peers: usize,
    pub bootstrap_nodes: Vec<String>,
    pub global_download_limit_bps: u64,
    pub global_upload_limit_bps: u64,
    pub max_concurrent_validations: usize,
    pub connection_attempt_permits: usize,
    pub resource_limit_override: Option<usize>,
    pub upload_slots: usize,
    pub peer_upload_in_flight_limit: usize,
    pub tracker_fallback_interval_secs: u64,
    pub client_leeching_fallback_interval_secs: u64,
}

/// The default port the client listens on.
pub const DEFAULT_CLIENT_PORT: u16 = 6681;

impl Default for Settings {
    /// Port 6681, no torrents, no folders, no limits, up to 2000 peers, the
    /// well-known DHT routers, 64 concurrent validations, 50 connection
    /// attempts, 8 upload slots with 4 blocks in flight each, and tracker
    /// fallbacks of 30 min (1 min while leeching).
    fn default() -> (r: Self)
        ensures
            r.client_id@.len() == 0,
            r.client_port == DEFAULT_CLIENT_PORT,
            r.torrents@.len() == 0,
            r.lifetime_downloaded == 0,
            r.lifetime_uploaded == 0,
            !r.private_client,
            r.torrent_sort_column == TorrentSortColumn::Up,
            r.torrent_sort_direction == SortDirection::Ascending,
            r.peer_sort_column == PeerSortColumn::UL,
            r.peer_sort_direction == SortDirection::Ascending,
            r.watch_folder is None,
            r.default_download_folder is None,
            r.max_connected_peers == 2000,
            r.bootstrap_nodes@.len() == 5,
            r.bootstrap_nodes@[0]@ == "router.utorrent.com:6881"@,
            r.bootstrap_nodes@[1]@ == "router.bittorrent.com:6881"@,
            r.bootstrap_nodes@[2]@ == "dht.transmissionbt.com:6881"@,
            r.bootstrap_nodes@[3]@ == "dht.libtorrent.org:25401"@,
            r.bootstrap_nodes@[4]@ == "router.cococorp.de:6881"@,
            r.global_download_limit_bps == 0,
            r.global_upload_limit_bps == 0,
            r.max_concurrent_validations == 64,
            r.connection_attempt_permits == 50,
            r.resource_limit_override is None,
            r.upload_slots == 8,
            r.peer_upload_in_flight_limit == 4,
            r.tracker_fallback_interval_secs == 1800,
            r.client_leeching_fallback_interval_secs == 60,
    {
        let mut nodes: Vec<String> = Vec::new();
        nodes.push("router.utorrent.com:6881".to_owned());
        nodes.push("router.bittorrent.com:6881".to_owned());
        nodes.push("dht.transmissionbt.com:6881".to_owned());
        nodes.push("dht.libtorrent.org:25401".to_owned());
        nodes.push("router.cococorp.de:6881".to_owned());
        Settings {
            client_id: String::new(),
            client_port: DEFAULT_CLIENT_PORT,
            torrents: Vec::new(),
            lifetime_downloaded: 0,
            lifetime_uploaded: 0,
            private_client: false,
            torrent_sort_column: TorrentSortColumn::Up,
            torrent_sort_direction: SortDirection::Ascending,
            peer_sort_column: PeerSortColumn::UL,
            peer_sort_direction: SortDirection::Ascending,
            watch_folder: None,
            default_download_folder: None,
            max_connected_peers: 2000,
            bootstrap_nodes: nodes,
            global_download_limit_bps: 0,
            global_upload_limit_bps: 0,
            max_concurrent_validations: 64,
            connection_attempt_permits: 50,
            resource_limit_override: None,
            upload_slots: 8,
            peer_upload_in_flight_limit: 4,
            tracker_fallback_interval_secs: 1800,
            client_leeching_fallback_interval_secs: 60,
        }
    }
}

/// `base` with `name` appended as a further path component.
pub open spec fn path_join(base: Seq<char>, name: Seq<char>) -> Seq<char> {
    if base.len() == 0 || base.last() == '/' {
        base + name
    } else {
        base + seq!['/'] + name
    }
}

/// Appends a component to a path.
pub fn join_path(base: &str, name: &str) -> (r: String)
    ensures
        r@ == path_join(base@, name@),
{
    let n = base.unicode_len();
    let mut r = base.to_owned();
    if n > 0 && base.get_char(n - 1) != '/' {
        r.append("/");
        proof {
            reveal_strlit("/");
        }
    }
    r.append(name);
    r
}

/// The folder watched for new torrents and the one processed files move to,
/// both inside the application's data folder (`app_paths` holds the config
/// and data folders, when they could be found).
pub fn get_watch_path(app_paths: &Option<(String, String)>) -> (r: Option<(String, String)>)
    ensures
        match app_paths {
            None => r is None,
            Some((_, data)) => r matches Some((w, p)) && w@ == path_join(data@, "watch_files"@) && p@
                == path_join(data@, "processed_files"@),
        },
{
    match app_paths {
        Some((_, data)) => Some((join_path(data, "watch_files"), join_path(data, "processed_files"))),
        None => None,
    }
}

/// The folders the settings ask to watch: the user's watch folder, if set.
pub fn configured_watch_paths(settings: &Settings) -> (r: Vec<String>)
    ensures
        r@.map_values(|p: String| p@) == match settings.watch_folder {
            Some(w) => seq![w@],
            None => Seq::<Seq<char>>::empty(),
        },
{
    let mut r: Vec<String> = Vec::new();
    match &settings.watch_folder {
        Some(w) => {
            r.push(w.clone());
            assert(r@.map_values(|p: String| p@) =~= seq![w@]);
        },
        None => {
            assert(r@.map_values(|p: String| p@) =~= Seq::<Seq<char>>::empty());
        },
    }
    r
}

} // verus!
