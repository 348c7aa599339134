//! What changed between two versions of the settings: watch folders added or
//! removed, and torrents added, removed or updated (matched by info hash).
use vstd::prelude::*;
use crate::config::{
    FilePriority, Settings, TorrentSettings, configured_watch_paths, copy_priorities, copy_text,
    priorities_eq, same_text, settings_eq, text_eq,
};
use crate::torrent_identity::{info_hash_from_torrent_source, source_info_hash};

verus! {

/// Where a torrent's data goes and how its files are treated, once the
/// defaults are applied.
#[derive(Debug, Clone)]
pub struct EffectiveTorrentRuntimeConfig {
    pub torrent_data_path: String,
    pub file_priorities: Vec<(usize, FilePriority)>,
    pub container_name: Option<String>,
}

/// Watch folders that appeared and disappeared.
#[derive(Debug, Clone, Default)]
pub struct WatchPathChanges {
    pub added: Vec<String>,
    pub removed: Vec<String>,
}

/// One change to the configured torrents.
#[derive(Debug, Clone)]
pub enum TorrentConfigChange {
    Added { info_hash: Vec<u8>, current: TorrentSettings },
    Removed { info_hash: Vec<u8>, previous: TorrentSettings },
    Updated {
        info_hash: Vec<u8>,
        previous: TorrentSettings,
        current: TorrentSettings,
        /// The new runtime configuration, when the data path, the file
        /// priorities or the container name changed (and a data path is known).
        runtime_config: Option<EffectiveTorrentRuntimeConfig>,
        control_state_changed: bool,
    },
}

/// Whether `r` is the runtime configuration of `torrent` under `settings`:
/// its own download path, else the default download folder, else none.
pub open spec fn is_effective_config(
    settings: Settings,
    torrent: TorrentSettings,
    r: Option<EffectiveTorrentRuntimeConfig>,
) -> bool {
    let path = match torrent.download_path {
        Some(p) => Some(p),
        None => settings.default_download_folder,
    };
    match path {
        None => r is None,
        Some(p) => r matches Some(c) && c.torrent_data_path@ == p@ && c.file_priorities@
            == torrent.file_priorities@ && same_text(c.container_name, torrent.container_name),
    }
}

/// The runtime configuration of a torrent under the settings.
pub fn effective_torrent_runtime_config(settings: &Settings, torrent: &TorrentSettings) -> (r: Option<
    EffectiveTorrentRuntimeConfig,
>)
    ensures
        is_effective_config(*settings, *torrent, r),
{
    let path = match &torrent.download_path {
        Some(p) => p.clone(),
        None => match &settings.default_download_folder {
            Some(d) => d.clone(),
            None => {
                return None;
            },
        },
    };
    Some(
        EffectiveTorrentRuntimeConfig {
            torrent_data_path: path,
            file_priorities: copy_priorities(&torrent.file_priorities),
            container_name: copy_text(&torrent.container_name),
        },
    )
}

/// The views of a list of texts.
pub open spec fn texts(v: Seq<String>) -> Seq<Seq<char>> {
    v.map_values(|p: String| p@)
}

/// Whether `p` is among the texts of `v`.
fn contains_text(v: &Vec<String>, p: &String) -> (r: bool)
    ensures
        r == texts(v@).contains(p@),
{
    let mut i: usize = 0;
    while i < v.len()
        invariant
            i <= v@.len(),
            forall|j: int| 0 <= j < i ==> v@[j]@ != p@,
        decreases v@.len() - i,
    {
        if v[i] == *p {
            assert(texts(v@)[i as int] == p@);
            return true;
        }
        i = i + 1;
    }
    assert(!texts(v@).contains(p@)) by {
        if texts(v@).contains(p@) {
            let k = choose|k: int| 0 <= k < texts(v@).len() && texts(v@)[k] == p@;
            assert(v@[k]@ == p@);
        }
    }
    false
}

/// The texts of `a` that are not in `b`, in order.
fn missing_from(a: &Vec<String>, b: &Vec<String>) -> (r: Vec<String>)
    ensures
        texts(r@) == texts(a@).filter(|p: Seq<char>| !texts(b@).contains(p)),
{
    let mut r: Vec<String> = Vec::new();
    let mut i: usize = 0;
    while i < a.len()
        invariant
            i <= a@.len(),
            texts(r@) == texts(a@).subrange(0, i as int).filter(|p: Seq<char>| !texts(b@).contains(p)),
        decreases a@.len() - i,
    {
        let keep = !contains_text(b, &a[i]);
        proof {
            let f = |p: Seq<char>| !texts(b@).contains(p);
            assert(texts(a@).subrange(0, i + 1) =~= texts(a@).subrange(0, i as int).push(a@[i as int]@));
            texts(a@).subrange(0, i as int).lemma_filter_push(a@[i as int]@, f);
        }
        if keep {
            let ghost before = r@;
            r.push(a[i].clone());
            proof {
                assert(texts(r@) =~= texts(before).push(a@[i as int]@));
            }
        }
        i = i + 1;
    }
    assert(texts(a@).subrange(0, i as int) =~= texts(a@));
    r
}

/// The watch folders added and removed between two settings: the added ones
/// in the new settings' order, the removed ones in the old settings' order.
pub fn configured_watch_path_changes(old_settings: &Settings, new_settings: &Settings) -> (r: WatchPathChanges)
    ensures
        ({
            let old_paths = match old_settings.watch_folder {
                Some(w) => seq![w@],
                None => Seq::<Seq<char>>::empty(),
            };
            let new_paths = match new_settings.watch_folder {
                Some(w) => seq![w@],
                None => Seq::<Seq<char>>::empty(),
            };
            &&& texts(r.removed@) == old_paths.filter(|p: Seq<char>| !new_paths.contains(p))
            &&& texts(r.added@) == new_paths.filter(|p: Seq<char>| !old_paths.contains(p))
        }),
{
    let old_paths = configured_watch_paths(old_settings);
    let new_paths = configured_watch_paths(new_settings);
    proof {
        assert(texts(old_paths@) == old_paths@.map_values(|p: String| p@));
        assert(texts(new_paths@) == new_paths@.map_values(|p: String| p@));
    }
    let removed = missing_from(&old_paths, &new_paths);
    let added = missing_from(&new_paths, &old_paths);
    WatchPathChanges { added, removed }
}

/// The first position of `h` among the keys, or -1.
pub open spec fn key_pos(keys: Seq<(Seq<u8>, int)>, h: Seq<u8>) -> int
    decreases keys.len(),
{
    if keys.len() == 0 {
        -1
    } else if key_pos(keys.drop_last(), h) >= 0 {
        key_pos(keys.drop_last(), h)
    } else if keys.last().0 == h {
        keys.len() - 1
    } else {
        -1
    }
}

/// The torrents among the first `n` that have an info hash, one per hash: in
/// the order the hashes first appear, each with the position of the last
/// torrent that has it.
pub open spec fn keyed(hashes: Seq<Option<Seq<u8>>>, n: int) -> Seq<(Seq<u8>, int)>
    decreases n,
{
    if n <= 0 {
        seq![]
    } else {
        let prev = keyed(hashes, n - 1);
        match hashes[n - 1] {
            None => prev,
            Some(h) => {
                let p = key_pos(prev, h);
                if p >= 0 {
                    prev.update(p, (h, n - 1))
                } else {
                    prev.push((h, n - 1))
                }
            },
        }
    }
}

proof fn lemma_key_pos(keys: Seq<(Seq<u8>, int)>, h: Seq<u8>)
    ensures
        key_pos(keys, h) == -1 || (0 <= key_pos(keys, h) < keys.len() && keys[key_pos(keys, h)].0 == h),
        key_pos(keys, h) == -1 ==> forall|j: int| 0 <= j < keys.len() ==> keys[j].0 != h,
    decreases keys.len(),
{
    if keys.len() > 0 {
        lemma_key_pos(keys.drop_last(), h);
        if key_pos(keys, h) == -1 {
            assert forall|j: int| 0 <= j < keys.len() implies keys[j].0 != h by {
                if j < keys.len() - 1 {
                    assert(keys[j] == keys.drop_last()[j]);
                }
            }
        }
    }
}

proof fn lemma_keyed_positions(hashes: Seq<Option<Seq<u8>>>, n: int)
    requires
        0 <= n <= hashes.len(),
    ensures
        forall|j: int| 0 <= j < keyed(hashes, n).len() ==> 0 <= #[trigger] keyed(hashes, n)[j].1 < n
            && hashes[keyed(hashes, n)[j].1] == Some(keyed(hashes, n)[j].0),
    decreases n,
{
    if n > 0 {
        lemma_keyed_positions(hashes, n - 1);
        let prev = keyed(hashes, n - 1);
        match hashes[n - 1] {
            None => {},
            Some(h) => {
                lemma_key_pos(prev, h);
            },
        }
    }
}

/// The key list of a list of hashes (see `keyed`), as positions.
pub fn key_torrents(hashes: &Vec<Option<Vec<u8>>>) -> (r: Vec<(Vec<u8>, usize)>)
    ensures
        keys_view(r@) == keyed(opt_bytes(hashes@), hashes@.len() as int),
{
    let ghost hs = opt_bytes(hashes@);
    let mut r: Vec<(Vec<u8>, usize)> = Vec::new();
    let mut i: usize = 0;
    while i < hashes.len()
        invariant
            i <= hashes@.len(),
            hs == opt_bytes(hashes@),
            keys_view(r@) == keyed(hs, i as int),
        decreases hashes@.len() - i,
    {
        let ghost prev = r@;
        match &hashes[i] {
            None => {},
            Some(h) => {
                match find_key(&r, h) {
                    Some(k) => {
                        r.set(k, (copy_bytes(h), i));
                        proof {
                            assert(keys_view(r@) =~= keys_view(prev).update(k as int, (h@, i as int)));
                        }
                    },
                    None => {
                        r.push((copy_bytes(h), i));
                        proof {
                            assert(keys_view(r@) =~= keys_view(prev).push((h@, i as int)));
                        }
                    },
                }
            },
        }
        i = i + 1;
    }
    r
}

proof fn lemma_key_pos_first(keys: Seq<(Seq<u8>, int)>, h: Seq<u8>, k: int)
    requires
        0 <= k < keys.len(),
        keys[k].0 == h,
        forall|j: int| 0 <= j < k ==> keys[j].0 != h,
    ensures
        key_pos(keys, h) == k,
    decreases keys.len(),
{
    if k < keys.len() - 1 {
        lemma_key_pos_first(keys.drop_last(), h, k);
    } else {
        lemma_key_pos(keys.drop_last(), h);
    }
}

/// The views of optional byte lists.
pub open spec fn opt_bytes(v: Seq<Option<Vec<u8>>>) -> Seq<Option<Seq<u8>>> {
    v.map_values(
        |o: Option<Vec<u8>>|
            match o {
                Some(b) => Some(b@),
                None => None,
            },
    )
}

/// Whether two byte lists are equal.
fn bytes_eq(a: &Vec<u8>, b: &Vec<u8>) -> (r: bool)
    ensures
        r == (a@ == b@),
{
    if a.len() != b.len() {
        return false;
    }
    let mut i: usize = 0;
    while i < a.len()
        invariant
            a@.len() == b@.len(),
            i <= a@.len(),
            forall|j: int| 0 <= j < i ==> a@[j] == b@[j],
        decreases a@.len() - i,
    {
        if a[i] != b[i] {
            return false;
        }
        i = i + 1;
    }
    assert(a@ =~= b@);
    true
}

/// A copy of a byte list.
fn copy_bytes(a: &Vec<u8>) -> (r: Vec<u8>)
    ensures
        r@ == a@,
{
    let mut r: Vec<u8> = Vec::new();
    let mut i: usize = 0;
    while i < a.len()
        invariant
            i <= a@.len(),
            r@ == a@.subrange(0, i as int),
        decreases a@.len() - i,
    {
        r.push(a[i]);
        i = i + 1;
    }
    assert(r@ =~= a@);
    r
}

/// A change, with torrents named by their positions in the old and new lists.
pub enum ChangeShape {
    Added(Seq<u8>, int),
    Removed(Seq<u8>, int),
    Updated(Seq<u8>, int, int),
}

/// Removals: the old keys that the new keys lack, in old order.
pub open spec fn removals(old_keys: Seq<(Seq<u8>, int)>, new_keys: Seq<(Seq<u8>, int)>, n: int) -> Seq<ChangeShape>
    decreases n,
{
    if n <= 0 {
        seq![]
    } else {
        removals(old_keys, new_keys, n - 1) + if key_pos(new_keys, old_keys[n - 1].0) < 0 {
            seq![ChangeShape::Removed(old_keys[n - 1].0, old_keys[n - 1].1)]
        } else {
            seq![]
        }
    }
}

/// Whether the settings that decide where a torrent's data goes differ.
pub open spec fn runtime_changed(a: TorrentSettings, b: TorrentSettings) -> bool {
    !same_text(a.download_path, b.download_path) || a.file_priorities@ != b.file_priorities@
        || !same_text(a.container_name, b.container_name)
}

/// Additions and updates: the new keys in new order, added when the old keys
/// lack them, updated when their torrent settings differ.
pub open spec fn additions(
    old_keys: Seq<(Seq<u8>, int)>,
    new_keys: Seq<(Seq<u8>, int)>,
    old: Seq<TorrentSettings>,
    new: Seq<TorrentSettings>,
    n: int,
) -> Seq<ChangeShape>
    decreases n,
{
    if n <= 0 {
        seq![]
    } else {
        let (h, j) = new_keys[n - 1];
        let p = key_pos(old_keys, h);
        additions(old_keys, new_keys, old, new, n - 1) + if p < 0 {
            seq![ChangeShape::Added(h, j)]
        } else if !old[old_keys[p].1].same(new[j]) {
            seq![ChangeShape::Updated(h, old_keys[p].1, j)]
        } else {
            seq![]
        }
    }
}

/// Whether a change is the one its shape describes.
pub open spec fn change_matches(
    c: TorrentConfigChange,
    shape: ChangeShape,
    old: Seq<TorrentSettings>,
    new: Seq<TorrentSettings>,
    new_settings: Settings,
) -> bool {
    match (c, shape) {
        (TorrentConfigChange::Added { info_hash, current }, ChangeShape::Added(h, j)) => info_hash@ == h
            && current.same(new[j]),
        (TorrentConfigChange::Removed { info_hash, previous }, ChangeShape::Removed(h, i)) => info_hash@
            == h && previous.same(old[i]),
        (
            TorrentConfigChange::Updated {
                info_hash,
                previous,
                current,
                runtime_config,
                control_state_changed,
            },
            ChangeShape::Updated(h, i, j),
        ) => {
            &&& info_hash@ == h
            &&& previous.same(old[i])
            &&& current.same(new[j])
            &&& control_state_changed == (old[i].torrent_control_state != new[j].torrent_control_state)
            &&& if runtime_changed(old[i], new[j]) {
                is_effective_config(new_settings, new[j], runtime_config)
            } else {
                runtime_config is None
            }
        },
        _ => false,
    }
}

/// The changes between two keyed torrent lists (`old_keys` and `new_keys`
/// hold each info hash once, with the position of its torrent in `old` and
/// `new`): removals in old order, then additions and updates in new order.
pub open spec fn keyed_changes(
    old_keys: Seq<(Seq<u8>, int)>,
    new_keys: Seq<(Seq<u8>, int)>,
    old: Seq<TorrentSettings>,
    new: Seq<TorrentSettings>,
) -> Seq<ChangeShape> {
    removals(old_keys, new_keys, old_keys.len() as int) + additions(
        old_keys,
        new_keys,
        old,
        new,
        new_keys.len() as int,
    )
}

/// The key list's view.
pub open spec fn keys_view(keys: Seq<(Vec<u8>, usize)>) -> Seq<(Seq<u8>, int)> {
    keys.map_values(|e: (Vec<u8>, usize)| (e.0@, e.1 as int))
}

/// The position of a key in a key list, if it is there.
fn find_key(keys: &Vec<(Vec<u8>, usize)>, h: &Vec<u8>) -> (r: Option<usize>)
    ensures
        match r {
            Some(p) => p < keys@.len() && p as int == key_pos(keys_view(keys@), h@),
            None => key_pos(keys_view(keys@), h@) == -1,
        },
{
    let ghost kv = keys_view(keys@);
    proof {
        lemma_key_pos(kv, h@);
    }
    let mut k: usize = 0;
    while k < keys.len()
        invariant
            k <= keys@.len(),
            kv == keys_view(keys@),
            forall|j: int| 0 <= j < k ==> kv[j].0 != h@,
        decreases keys@.len() - k,
    {
        if bytes_eq(&keys[k].0, h) {
            proof {
                lemma_key_pos_first(kv, h@, k as int);
            }
            return Some(k);
        }
        k = k + 1;
    }
    proof {
        if key_pos(kv, h@) != -1 {
            assert(kv[key_pos(kv, h@)].0 == h@);
        }
    }
    None
}

/// The changes between two keyed torrent lists (see `keyed_changes`); the
/// keys' positions name torrents of `old_settings` and `new_settings`.
pub fn diff_keyed_torrents(
    old_settings: &Settings,
    new_settings: &Settings,
    old_keys: &Vec<(Vec<u8>, usize)>,
    new_keys: &Vec<(Vec<u8>, usize)>,
) -> (r: Vec<TorrentConfigChange>)
    requires
        forall|j: int| 0 <= j < old_keys@.len() ==> (#[trigger] old_keys@[j]).1 < old_settings.torrents@.len(),
        forall|j: int| 0 <= j < new_keys@.len() ==> (#[trigger] new_keys@[j]).1 < new_settings.torrents@.len(),
    ensures
        ({
            let shapes = keyed_changes(
                keys_view(old_keys@),
                keys_view(new_keys@),
                old_settings.torrents@,
                new_settings.torrents@,
            );
            &&& r@.len() == shapes.len()
            &&& forall|k: int| 0 <= k < r@.len() ==> change_matches(
                #[trigger] r@[k],
                shapes[k],
                old_settings.torrents@,
                new_settings.torrents@,
                *new_settings,
            )
        }),
{
    let ghost ok = keys_view(old_keys@);
    let ghost nk = keys_view(new_keys@);
    let ghost old = old_settings.torrents@;
    let ghost new = new_settings.torrents@;
    let mut changes: Vec<TorrentConfigChange> = Vec::new();
    let mut i: usize = 0;
    while i < old_keys.len()
        invariant
            i <= old_keys@.len(),
            ok == keys_view(old_keys@),
            nk == keys_view(new_keys@),
            old == old_settings.torrents@,
            new == new_settings.torrents@,
            forall|j: int| 0 <= j < old_keys@.len() ==> (#[trigger] old_keys@[j]).1 < old.len(),
            changes@.len() == removals(ok, nk, i as int).len(),
            forall|k: int| 0 <= k < changes@.len() ==> change_matches(
                #[trigger] changes@[k],
                removals(ok, nk, i as int)[k],
                old,
                new,
                *new_settings,
            ),
        decreases old_keys@.len() - i,
    {
        let gone = find_key(new_keys, &old_keys[i].0).is_none();
        if gone {
            let idx = old_keys[i].1;
            let c = TorrentConfigChange::Removed {
                info_hash: copy_bytes(&old_keys[i].0),
                previous: old_settings.torrents[idx].duplicate(),
            };
            let ghost before = changes@;
            changes.push(c);
            proof {
                assert(removals(ok, nk, i + 1) =~= removals(ok, nk, i as int).push(ChangeShape::Removed(ok[i as int].0, ok[i as int].1)));
                assert forall|k: int| 0 <= k < changes@.len() implies change_matches(
                    #[trigger] changes@[k],
                    removals(ok, nk, i + 1)[k],
                    old,
                    new,
                    *new_settings,
                ) by {
                    if k < before.len() {
                        assert(changes@[k] == before[k]);
                    }
                }
            }
        } else {
            proof {
                assert(removals(ok, nk, i + 1) =~= removals(ok, nk, i as int));
            }
        }
        i = i + 1;
    }
    let ghost rem = removals(ok, nk, ok.len() as int);
    let mut j: usize = 0;
    while j < new_keys.len()
        invariant
            j <= new_keys@.len(),
            ok == keys_view(old_keys@),
            nk == keys_view(new_keys@),
            old == old_settings.torrents@,
            new == new_settings.torrents@,
            rem == removals(ok, nk, ok.len() as int),
            forall|t: int| 0 <= t < old_keys@.len() ==> (#[trigger] old_keys@[t]).1 < old.len(),
            forall|t: int| 0 <= t < new_keys@.len() ==> (#[trigger] new_keys@[t]).1 < new.len(),
            changes@.len() == rem.len() + additions(ok, nk, old, new, j as int).len(),
            forall|k: int| 0 <= k < changes@.len() ==> change_matches(
                #[trigger] changes@[k],
                (rem + additions(ok, nk, old, new, j as int))[k],
                old,
                new,
                *new_settings,
            ),
        decreases new_keys@.len() - j,
    {
        let cur_idx = new_keys[j].1;
        let ghost step = additions(ok, nk, old, new, j + 1);
        proof {
            lemma_key_pos(ok, nk[j as int].0);
        }
        match find_key(old_keys, &new_keys[j].0) {
            None => {
                let c = TorrentConfigChange::Added {
                    info_hash: copy_bytes(&new_keys[j].0),
                    current: new_settings.torrents[cur_idx].duplicate(),
                };
                let ghost before = changes@;
                changes.push(c);
                proof {
                    assert(step =~= additions(ok, nk, old, new, j as int).push(ChangeShape::Added(nk[j as int].0, nk[j as int].1)));
                    assert(rem + step =~= (rem + additions(ok, nk, old, new, j as int)).push(ChangeShape::Added(nk[j as int].0, nk[j as int].1)));
                    assert forall|k: int| 0 <= k < changes@.len() implies change_matches(
                        #[trigger] changes@[k],
                        (rem + step)[k],
                        old,
                        new,
                        *new_settings,
                    ) by {
                        if k < before.len() {
                            assert(changes@[k] == before[k]);
                        }
                    }
                }
            },
            Some(p) => {
                let prev_idx = old_keys[p].1;
                let previous = &old_settings.torrents[prev_idx];
                let current = &new_settings.torrents[cur_idx];
                if !settings_eq(previous, current) {
                    let runtime = !text_eq(&previous.download_path, &current.download_path)
                        || !priorities_eq(&previous.file_priorities, &current.file_priorities)
                        || !text_eq(&previous.container_name, &current.container_name);
                    let control = previous.torrent_control_state != current.torrent_control_state;
                    let runtime_config = if runtime {
                        effective_torrent_runtime_config(new_settings, current)
                    } else {
                        None
                    };
                    let c = TorrentConfigChange::Updated {
                        info_hash: copy_bytes(&new_keys[j].0),
                        previous: previous.duplicate(),
                        current: current.duplicate(),
                        runtime_config,
                        control_state_changed: control,
                    };
                    let ghost before = changes@;
                    changes.push(c);
                    proof {
                        let sh = ChangeShape::Updated(nk[j as int].0, ok[p as int].1, nk[j as int].1);
                        assert(step =~= additions(ok, nk, old, new, j as int).push(sh));
                        assert(rem + step =~= (rem + additions(ok, nk, old, new, j as int)).push(sh));
                        assert forall|k: int| 0 <= k < changes@.len() implies change_matches(
                            #[trigger] changes@[k],
                            (rem + step)[k],
                            old,
                            new,
                            *new_settings,
                        ) by {
                            if k < before.len() {
                                assert(changes@[k] == before[k]);
                            }
                        }
                    }
                } else {
                    proof {
                        assert(step =~= additions(ok, nk, old, new, j as int));
                    }
                }
            },
        }
        j = j + 1;
    }
    changes
}

/// The key list of the settings' torrents: each info hash once, with the
/// position of the last torrent whose source names it.
pub open spec fn settings_keys(settings: Settings) -> Seq<(Seq<u8>, int)> {
    keyed(
        settings.torrents@.map_values(|t: TorrentSettings| source_info_hash(t.torrent_or_magnet@)),
        settings.torrents@.len() as int,
    )
}

/// Keys the settings' torrents by the info hash their source names.
pub fn torrents_by_info_hash(settings: &Settings) -> (r: Vec<(Vec<u8>, usize)>)
    ensures
        keys_view(r@) == settings_keys(*settings),
        forall|j: int| 0 <= j < r@.len() ==> (#[trigger] r@[j]).1 < settings.torrents@.len(),
{
    let ghost ts = settings.torrents@;
    let ghost hs = ts.map_values(|t: TorrentSettings| source_info_hash(t.torrent_or_magnet@));
    let mut hashes: Vec<Option<Vec<u8>>> = Vec::new();
    let mut i: usize = 0;
    while i < settings.torrents.len()
        invariant
            i <= ts.len(),
            ts == settings.torrents@,
            hs == ts.map_values(|t: TorrentSettings| source_info_hash(t.torrent_or_magnet@)),
            opt_bytes(hashes@) == hs.subrange(0, i as int),
        decreases ts.len() - i,
    {
        let h = info_hash_from_torrent_source(settings.torrents[i].torrent_or_magnet.as_str());
        let ghost before = hashes@;
        hashes.push(h);
        proof {
            assert(opt_bytes(hashes@) =~= opt_bytes(before).push(hs[i as int]));
            assert(hs.subrange(0, i + 1) =~= hs.subrange(0, i as int).push(hs[i as int]));
        }
        i = i + 1;
    }
    proof {
        assert(opt_bytes(hashes@) =~= hs);
    }
    let r = key_torrents(&hashes);
    proof {
        lemma_keyed_positions(hs, ts.len() as int);
        assert forall|j: int| 0 <= j < r@.len() implies (#[trigger] r@[j]).1 < ts.len() by {
            assert(keys_view(r@)[j].1 == r@[j].1 as int);
        }
    }
    r
}

/// The changes between two settings' torrents, matched by the info hash
/// their sources name (see `keyed_changes`).
pub fn diff_torrent_configs(old_settings: &Settings, new_settings: &Settings) -> (r: Vec<TorrentConfigChange>)
    ensures
        ({
            let shapes = keyed_changes(
                settings_keys(*old_settings),
                settings_keys(*new_settings),
                old_settings.torrents@,
                new_settings.torrents@,
            );
            &&& r@.len() == shapes.len()
            &&& forall|k: int| 0 <= k < r@.len() ==> change_matches(
                #[trigger] r@[k],
                shapes[k],
                old_settings.torrents@,
                new_settings.torrents@,
                *new_settings,
            )
        }),
{
    let old_keys = torrents_by_info_hash(old_settings);
    let new_keys = torrents_by_info_hash(new_settings);
    diff_keyed_torrents(old_settings, new_settings, &old_keys, &new_keys)
}

} // verus!
