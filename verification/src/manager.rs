//! The plugin manager: the collection of loaded plugin records, the
//! load/unload lifecycle, and the hot-reload watch bookkeeping.
//!
//! Load and unload are driven by plain values: the caller performs the
//! filesystem probing, the dynamic linking and the plugin calls, and
//! reports their outcomes; the manager makes every decision and keeps
//! every record, and never registers a partially constructed record.
use crate::handles::StyleHandle;
use crate::handles::VisualHandle;
use crate::handles::spec_substitute_style;
use crate::handles::spec_substitute_visual;
use crate::handles::style_from_raw;
use crate::handles::visual_from_raw;
use crate::resolver::ResolveEnv;
use crate::resolver::get_ld_path;
use crate::resolver::opt_string_view;
use crate::resolver::parent_dir;
use crate::resolver::spec_parent_dir;
use crate::resolver::spec_resolve;
use crate::resolver::string_views;
use vstd::prelude::*;

verus! {

/// Why a load attempt failed. Failed loads leave the manager unchanged:
/// no partially constructed record is ever registered.
#[derive(Clone, Copy, Debug, PartialEq, Eq, Structural)]
pub enum LoadError {
    /// The logical name resolved to no library path.
    NotFound,
    /// The resolved binary could not be mapped into the process.
    OpenFailed,
    /// The mapped binary does not export the fixed constructor symbol.
    ConstructFailed,
    /// A record with the same library path is already loaded.
    AlreadyLoaded,
}

/// What the outside steps of a load reported: whether the library mapped,
/// whether the fixed constructor symbol was found, the opaque handles the
/// plugin's code returned (zero for null), and whether the directory
/// watch registration succeeded.
#[derive(Clone, Copy, Debug, PartialEq, Eq, Structural)]
pub struct LoadOutcome {
    /// The resolved binary was mapped into the process.
    pub open_ok: bool,
    /// The fixed constructor symbol was found and invoked.
    pub construct_found: bool,
    /// The opaque plugin instance pointer the constructor returned.
    pub instance: u64,
    /// The raw visual handle `produce_visual` returned; zero means null.
    pub visual_raw: u64,
    /// The raw style handle `produce_style` returned; zero means null.
    pub style_raw: u64,
    /// Registering the library's directory with the watcher succeeded.
    pub watch_ok: bool,
}

/// One loaded plugin: its logical name, the resolved path of the mapped
/// binary, the opaque instance pointer, and the two produced resources.
pub struct PluginRecord {
    /// Logical plugin identifier as supplied by the caller.
    pub name: String,
    /// Absolute resolved path of the binary that was mapped.
    pub library_path: String,
    /// Opaque plugin instance pointer (lives inside the mapped library).
    pub instance: u64,
    /// The visual content handle, never null (null was substituted).
    pub visual: VisualHandle,
    /// The style resource handle, never null (null was substituted).
    pub style: StyleHandle,
}

/// The mathematical value of a loaded record.
#[verifier::ext_equal]
pub struct RecordModel {
    pub name: Seq<char>,
    pub library_path: Seq<char>,
    pub instance: u64,
    pub visual: VisualHandle,
    pub style: StyleHandle,
}

impl View for PluginRecord {
    type V = RecordModel;

    open spec fn view(&self) -> RecordModel {
        RecordModel {
            name: self.name@,
            library_path: self.library_path@,
            instance: self.instance,
            visual: self.visual,
            style: self.style,
        }
    }
}

/// One hot-reload bookkeeping entry: a logical plugin name and the
/// directory watched on its behalf.
pub struct WatchEntry {
    /// The logical plugin name the watch was registered for.
    pub name: String,
    /// The directory being watched.
    pub dir: String,
}

/// The mathematical value of a watch entry.
#[verifier::ext_equal]
pub struct WatchModel {
    pub name: Seq<char>,
    pub dir: Seq<char>,
}

impl View for WatchEntry {
    type V = WatchModel;

    open spec fn view(&self) -> WatchModel {
        WatchModel { name: self.name@, dir: self.dir@ }
    }
}

/// The mathematical value of the whole manager.
#[verifier::ext_equal]
pub struct ManagerModel {
    pub records: Seq<RecordModel>,
    pub watcher_active: bool,
    pub watched: Seq<WatchModel>,
}

/// The collection of loaded plugin records, the optional hot-reload
/// watcher flag, and the watch bookkeeping.
pub struct PluginManager {
    /// Loaded records, in load order; no duplicate library paths.
    pub records: Vec<PluginRecord>,
    /// Whether a filesystem watcher was set up at construction. When
    /// setup failed the manager degrades to no hot-reload instead of
    /// failing construction.
    pub watcher_active: bool,
    /// Logical name to watched directory, at most one entry per name.
    pub watched: Vec<WatchEntry>,
}

impl View for PluginManager {
    type V = ManagerModel;

    open spec fn view(&self) -> ManagerModel {
        ManagerModel {
            records: self.records@.map_values(|r: PluginRecord| r@),
            watcher_active: self.watcher_active,
            watched: self.watched@.map_values(|w: WatchEntry| w@),
        }
    }
}

/// The library paths of the loaded records, in load order.
pub open spec fn record_paths(m: ManagerModel) -> Seq<Seq<char>> {
    m.records.map_values(|r: RecordModel| r.library_path)
}

/// Whether some loaded record has this library path.
pub open spec fn has_path(m: ManagerModel, path: Seq<char>) -> bool {
    exists|i: int| 0 <= i < m.records.len() && m.records[i].library_path == path
}

/// The index of the record with this library path (unique in a
/// well-formed manager).
pub open spec fn record_index(m: ManagerModel, path: Seq<char>) -> int {
    choose|i: int| 0 <= i < m.records.len() && m.records[i].library_path == path
}

/// The logical name the record with this library path was loaded under.
pub open spec fn spec_name_of(m: ManagerModel, path: Seq<char>) -> Option<Seq<char>> {
    if has_path(m, path) {
        Option::Some(m.records[record_index(m, path)].name)
    } else {
        Option::None
    }
}

/// The visual handle of the record with this library path.
pub open spec fn spec_visual_of(m: ManagerModel, path: Seq<char>) -> Option<VisualHandle> {
    if has_path(m, path) {
        Option::Some(m.records[record_index(m, path)].visual)
    } else {
        Option::None
    }
}

/// Whether some watch entry is registered for this logical name.
pub open spec fn watched_has(w: Seq<WatchModel>, name: Seq<char>) -> bool {
    exists|i: int| 0 <= i < w.len() && w[i].name == name
}

/// The index of the watch entry for this name (unique in a well-formed
/// manager).
pub open spec fn watch_index(w: Seq<WatchModel>, name: Seq<char>) -> int {
    choose|i: int| 0 <= i < w.len() && w[i].name == name
}

/// Whether some loaded record bears this logical name.
pub open spec fn has_record_name(m: ManagerModel, name: Seq<char>) -> bool {
    exists|j: int| 0 <= j < m.records.len() && (#[trigger] m.records[j].name) == name
}

/// Well-formedness of the manager: no two records share a library path,
/// no two watch entries share a name, every watch entry belongs to some
/// loaded record, nothing is watched without an active watcher, and no
/// stored handle is null.
pub open spec fn spec_wf(m: ManagerModel) -> bool {
    &&& (forall|i: int, j: int|
        0 <= i < j < m.records.len() ==> m.records[i].library_path != m.records[j].library_path)
    &&& (forall|i: int, j: int| 0 <= i < j < m.watched.len() ==> m.watched[i].name != m.watched[j].name)
    &&& (forall|i: int|
        0 <= i < m.watched.len() ==> has_record_name(m, (#[trigger] m.watched[i]).name))
    &&& (!m.watcher_active ==> m.watched.len() == 0)
    &&& (forall|i: int|
        0 <= i < m.records.len() ==> !(#[trigger] m.records[i].visual).is_null()
            && !m.records[i].style.is_null())
}

/// The record a successful load appends.
pub open spec fn spec_record(name: Seq<char>, path: Seq<char>, io: LoadOutcome) -> RecordModel {
    RecordModel {
        name: name,
        library_path: path,
        instance: io.instance,
        visual: spec_substitute_visual(io.visual_raw),
        style: spec_substitute_style(io.style_raw),
    }
}

/// The watch bookkeeping after a successful load: a new entry only when
/// the watcher is active, registration succeeded, and no entry for the
/// name exists yet.
pub open spec fn spec_watched_after(
    m: ManagerModel,
    name: Seq<char>,
    dir: Seq<char>,
    watch_ok: bool,
) -> Seq<WatchModel> {
    if m.watcher_active && watch_ok && !watched_has(m.watched, name) {
        m.watched.push(WatchModel { name: name, dir: dir })
    } else {
        m.watched
    }
}

/// The load transition: given the resolution result and the reported
/// outcomes of the outside steps, the next manager state and the result
/// handed to the caller. Every failure leaves the state unchanged.
pub open spec fn spec_load(
    m: ManagerModel,
    name: Seq<char>,
    resolved: Option<Seq<char>>,
    io: LoadOutcome,
) -> (ManagerModel, Result<(VisualHandle, StyleHandle), LoadError>) {
    match resolved {
        Option::None => (m, Result::Err(LoadError::NotFound)),
        Option::Some(path) => if !io.open_ok {
            (m, Result::Err(LoadError::OpenFailed))
        } else if !io.construct_found {
            (m, Result::Err(LoadError::ConstructFailed))
        } else if has_path(m, path) {
            (m, Result::Err(LoadError::AlreadyLoaded))
        } else {
            let rec = spec_record(name, path, io);
            let m2 = ManagerModel {
                records: m.records.push(rec),
                watcher_active: m.watcher_active,
                watched: spec_watched_after(m, name, spec_parent_dir(path), io.watch_ok),
            };
            (m2, Result::Ok((rec.visual, rec.style)))
        },
    }
}

/// The unload transition: remove the record with this library path (a
/// no-op when none has it), drop its watch entry, and report the
/// directory to unwatch.
pub open spec fn spec_unload(m: ManagerModel, path: Seq<char>) -> (ManagerModel, Option<
    Seq<char>,
>) {
    if has_path(m, path) {
        let i = record_index(m, path);
        let name = m.records[i].name;
        let w2 = if watched_has(m.watched, name) {
            m.watched.remove(watch_index(m.watched, name))
        } else {
            m.watched
        };
        let dir = if watched_has(m.watched, name) {
            Option::Some(m.watched[watch_index(m.watched, name)].dir)
        } else {
            Option::None
        };
        (ManagerModel { records: m.records.remove(i), watcher_active: m.watcher_active, watched: w2 }, dir)
    } else {
        (m, Option::None)
    }
}

/// The load transition preserves well-formedness.
pub proof fn lemma_load_preserves_wf(
    m: ManagerModel,
    name: Seq<char>,
    resolved: Option<Seq<char>>,
    io: LoadOutcome,
)
    requires
        spec_wf(m),
    ensures
        spec_wf(spec_load(m, name, resolved, io).0),
{
    if resolved is Some && io.open_ok && io.construct_found && !has_path(m, resolved->Some_0) {
        let path = resolved->Some_0;
        let rec = spec_record(name, path, io);
        let m2 = spec_load(m, name, resolved, io).0;
        assert(m2.records == m.records.push(rec));
        assert forall|a: int, b: int| 0 <= a < b < m2.records.len() implies m2.records[a].library_path
            != m2.records[b].library_path by {
            if b == m2.records.len() - 1 {
                if m.records[a].library_path == path {
                    assert(0 <= a < m.records.len() && m.records[a].library_path == path);
                    assert(has_path(m, path));
                }
            }
        }
        let w2 = m2.watched;
        if m.watcher_active && io.watch_ok && !watched_has(m.watched, name) {
            assert(w2 == m.watched.push(WatchModel { name: name, dir: spec_parent_dir(path) }));
            assert forall|a: int, b: int| 0 <= a < b < w2.len() implies w2[a].name != w2[b].name by {
                if b == w2.len() - 1 {
                    if m.watched[a].name == name {
                        assert(0 <= a < m.watched.len() && m.watched[a].name == name);
                        assert(watched_has(m.watched, name));
                    }
                }
            }
            assert forall|k: int| 0 <= k < w2.len() implies has_record_name(
                m2,
                (#[trigger] w2[k]).name,
            ) by {
                if k < m.watched.len() {
                    assert(has_record_name(m, m.watched[k].name));
                    let j0 = choose|j: int|
                        0 <= j < m.records.len() && (#[trigger] m.records[j].name)
                            == m.watched[k].name;
                    assert(m2.records[j0].name == w2[k].name);
                } else {
                    assert(m2.records[m.records.len() as int].name == name);
                }
            }
        } else {
            assert(w2 == m.watched);
            assert forall|k: int| 0 <= k < w2.len() implies has_record_name(
                m2,
                (#[trigger] w2[k]).name,
            ) by {
                assert(has_record_name(m, m.watched[k].name));
                let j0 = choose|j: int|
                    0 <= j < m.records.len() && (#[trigger] m.records[j].name)
                        == m.watched[k].name;
                assert(m2.records[j0].name == w2[k].name);
            }
        }
    }
}

/// The unload transition preserves well-formedness.
pub proof fn lemma_unload_preserves_wf(m: ManagerModel, path: Seq<char>)
    requires
        spec_wf(m),
    ensures
        spec_wf(spec_unload(m, path).0),
{
    if has_path(m, path) {
        let i = record_index(m, path);
        assert(0 <= i < m.records.len() && m.records[i].library_path == path);
        let name = m.records[i].name;
        let m2 = spec_unload(m, path).0;
        assert(m2.records == m.records.remove(i));
        assert(forall|k: int| 0 <= k < i ==> m2.records[k] == m.records[k]);
        assert(forall|k: int| i <= k < m2.records.len() ==> m2.records[k] == m.records[k + 1]);
        if watched_has(m.watched, name) {
            let wi = watch_index(m.watched, name);
            assert(0 <= wi < m.watched.len() && m.watched[wi].name == name);
            assert(m2.watched == m.watched.remove(wi));
            assert(forall|k: int| 0 <= k < wi ==> m2.watched[k] == m.watched[k]);
            assert(forall|k: int| wi <= k < m2.watched.len() ==> m2.watched[k] == m.watched[k + 1]);
        } else {
            assert(m2.watched == m.watched);
        }
        assert forall|a: int, b: int| 0 <= a < b < m2.records.len() implies m2.records[a].library_path
            != m2.records[b].library_path by {
            let a0 = if a < i {
                a
            } else {
                a + 1
            };
            let b0 = if b < i {
                b
            } else {
                b + 1
            };
            assert(m2.records[a] == m.records[a0]);
            assert(m2.records[b] == m.records[b0]);
        }
        assert forall|a: int, b: int| 0 <= a < b < m2.watched.len() implies m2.watched[a].name
            != m2.watched[b].name by {
            let wi = watch_index(m.watched, name);
            let a0 = if watched_has(m.watched, name) && a >= wi {
                a + 1
            } else {
                a
            };
            let b0 = if watched_has(m.watched, name) && b >= wi {
                b + 1
            } else {
                b
            };
            assert(m2.watched[a] == m.watched[a0]);
            assert(m2.watched[b] == m.watched[b0]);
        }
        assert forall|k: int| 0 <= k < m2.records.len() implies !(
        #[trigger] m2.records[k].visual).is_null() && !m2.records[k].style.is_null() by {
            let k0 = if k < i {
                k
            } else {
                k + 1
            };
            assert(m2.records[k] == m.records[k0]);
        }
        assert forall|k: int| 0 <= k < m2.watched.len() implies has_record_name(
            m2,
            (#[trigger] m2.watched[k]).name,
        ) by {
            // the surviving entry's name is not the removed record's name
            let ko = if watched_has(m.watched, name) && k >= watch_index(m.watched, name) {
                k + 1
            } else {
                k
            };
            assert(m2.watched[k] == m.watched[ko]);
            if m.watched[ko].name == name {
                assert(0 <= ko < m.watched.len() && m.watched[ko].name == name);
                assert(watched_has(m.watched, name));
                let wi = watch_index(m.watched, name);
                assert(0 <= wi < m.watched.len() && m.watched[wi].name == name);
                if ko != wi {
                    assert(m.watched[ko].name == m.watched[wi].name);
                    assert(false);
                }
                assert(false);
            }
            assert(has_record_name(m, m.watched[ko].name));
            let j0 = choose|j: int|
                0 <= j < m.records.len() && (#[trigger] m.records[j].name) == m.watched[ko].name;
            if j0 == i {
                assert(false);
            }
            let j2 = if j0 < i {
                j0
            } else {
                j0 - 1
            };
            assert(m2.records[j2].name == m2.watched[k].name);
        }
    }
}

impl Default for PluginManager {
    /// The degraded manager: empty, with hot-reload disabled.
    fn default() -> (m: PluginManager)
        ensures
            m@.records =~= Seq::<RecordModel>::empty(),
            m@.watched =~= Seq::<WatchModel>::empty(),
            m@.watcher_active == false,
            m.wf(),
    {
        PluginManager::new(false)
    }
}

/// Loading a library path that is already loaded, however well the
/// outside steps went, fails with `AlreadyLoaded` and leaves the manager
/// unchanged; in particular the record count is what it was.
pub proof fn lemma_already_loaded(
    m: ManagerModel,
    name: Seq<char>,
    path: Seq<char>,
    io: LoadOutcome,
)
    requires
        io.open_ok,
        io.construct_found,
        has_path(m, path),
    ensures
        ({
            let lr = spec_load(m, name, Option::Some(path), io);
            &&& lr.0 == m
            &&& lr.1 == Result::<(VisualHandle, StyleHandle), LoadError>::Err(
                LoadError::AlreadyLoaded,
            )
            &&& lr.0.records.len() == m.records.len()
        }),
{
}

/// After a successful load, the resolved path is registered exactly once
/// (it is the new last record and no earlier record has it), and looking
/// the path up yields the logical name it was loaded under.
pub proof fn lemma_load_registers(
    m: ManagerModel,
    name: Seq<char>,
    path: Seq<char>,
    io: LoadOutcome,
)
    requires
        spec_wf(m),
        io.open_ok,
        io.construct_found,
        !has_path(m, path),
    ensures
        ({
            let lr = spec_load(m, name, Option::Some(path), io);
            &&& lr.1 is Ok
            &&& record_paths(lr.0) == record_paths(m).push(path)
            &&& has_path(lr.0, path)
            &&& lr.0.records[lr.0.records.len() - 1].library_path == path
            &&& (forall|i: int|
                0 <= i < lr.0.records.len() - 1 ==> (#[trigger] lr.0.records[i]).library_path
                    != path)
            &&& spec_name_of(lr.0, path) == Option::Some(name)
        }),
{
    let lr = spec_load(m, name, Option::Some(path), io);
    let m2 = lr.0;
    let n = m.records.len() as int;
    assert(record_paths(m2) =~= record_paths(m).push(path));
    assert forall|i: int| 0 <= i < n implies (#[trigger] m2.records[i]).library_path != path by {
        if m.records[i].library_path == path {
            assert(has_path(m, path));
        }
    }
    assert(m2.records[n].library_path == path);
    assert(has_path(m2, path));
    let ci = record_index(m2, path);
    assert(0 <= ci < m2.records.len() && m2.records[ci].library_path == path);
    if ci != n {
        assert(false);
    }
    assert(m2.records[ci].name == name);
}

/// After unloading a path, the path is gone from the manager, and a
/// subsequent load that resolves to the same path succeeds (given the
/// outside steps succeed): reloading after unload is always possible.
pub proof fn lemma_unload_then_reload(
    m: ManagerModel,
    path: Seq<char>,
    name2: Seq<char>,
    io: LoadOutcome,
)
    requires
        spec_wf(m),
        io.open_ok,
        io.construct_found,
    ensures
        ({
            let m2 = spec_unload(m, path).0;
            &&& !has_path(m2, path)
            &&& spec_load(m2, name2, Option::Some(path), io).1 is Ok
        }),
{
    let m2 = spec_unload(m, path).0;
    if has_path(m, path) {
        let i = record_index(m, path);
        assert(0 <= i < m.records.len() && m.records[i].library_path == path);
        assert(m2.records == m.records.remove(i));
        if has_path(m2, path) {
            let k = choose|k: int|
                0 <= k < m2.records.len() && m2.records[k].library_path == path;
            let k0 = if k < i {
                k
            } else {
                k + 1
            };
            assert(m2.records[k] == m.records[k0]);
            assert(m.records[k0].library_path == m.records[i].library_path);
            assert(false);
        }
    } else {
        assert(m2 == m);
    }
}

/// Null substitution: a successful load stores handles that are never
/// null; when the plugin returned a null visual or style handle, the
/// stored handle is the host's default, and the handles handed back to
/// the caller are exactly the stored ones.
pub proof fn lemma_null_substitution(
    m: ManagerModel,
    name: Seq<char>,
    path: Seq<char>,
    io: LoadOutcome,
)
    requires
        io.open_ok,
        io.construct_found,
        !has_path(m, path),
    ensures
        ({
            let lr = spec_load(m, name, Option::Some(path), io);
            let rec = lr.0.records.last();
            &&& lr.1 == Result::<(VisualHandle, StyleHandle), LoadError>::Ok(
                (rec.visual, rec.style),
            )
            &&& !rec.visual.is_null()
            &&& !rec.style.is_null()
            &&& (io.visual_raw == 0 ==> rec.visual == VisualHandle::DefaultEmpty)
            &&& (io.style_raw == 0 ==> rec.style == StyleHandle::DefaultNeutral)
            &&& (io.visual_raw != 0 ==> rec.visual == VisualHandle::Plugin(io.visual_raw))
            &&& (io.style_raw != 0 ==> rec.style == StyleHandle::Plugin(io.style_raw))
        }),
{
}

impl PluginManager {
    /// Well-formedness of this manager's state.
    pub open spec fn wf(&self) -> bool {
        spec_wf(self@)
    }

    /// A fresh manager with no records and nothing watched. The caller
    /// reports whether watcher setup succeeded; on failure the manager
    /// runs with hot-reload disabled rather than failing construction.
    pub fn new(watcher_active: bool) -> (m: PluginManager)
        ensures
            m@.records =~= Seq::<RecordModel>::empty(),
            m@.watched =~= Seq::<WatchModel>::empty(),
            m@.watcher_active == watcher_active,
            m.wf(),
    {
        let m = PluginManager { records: Vec::new(), watcher_active, watched: Vec::new() };
        proof {
            assert(m@.records =~= Seq::<RecordModel>::empty());
            assert(m@.watched =~= Seq::<WatchModel>::empty());
        }
        m
    }

    /// Finds the index of the record with this library path.
    fn find_record(&self, lib_path: &String) -> (r: Option<usize>)
        ensures
            match r {
                Option::None => !has_path(self@, lib_path@),
                Option::Some(i) => i < self@.records.len() && self@.records[i as int].library_path
                    == lib_path@,
            },
    {
        let mut i: usize = 0;
        while i < self.records.len()
            invariant
                i <= self.records@.len(),
                forall|j: int| 0 <= j < i ==> self@.records[j].library_path != lib_path@,
            decreases self.records@.len() - i,
        {
            if self.records[i].library_path == *lib_path {
                return Some(i);
            }
            i = i + 1;
        }
        None
    }

    /// Finds the index of the watch entry for this logical name.
    fn find_watch(&self, name: &String) -> (r: Option<usize>)
        ensures
            match r {
                Option::None => !watched_has(self@.watched, name@),
                Option::Some(i) => i < self@.watched.len() && self@.watched[i as int].name
                    == name@,
            },
    {
        let mut i: usize = 0;
        while i < self.watched.len()
            invariant
                i <= self.watched@.len(),
                forall|j: int| 0 <= j < i ==> self@.watched[j].name != name@,
            decreases self.watched@.len() - i,
        {
            if self.watched[i].name == *name {
                return Some(i);
            }
            i = i + 1;
        }
        None
    }

    /// Loads the plugin with this logical name: resolves it against the
    /// supplied environment, then applies the load transition to the
    /// reported outcomes of the mapping, construction and production
    /// steps. On success the produced (null-substituted) handles are
    /// returned; on failure the manager is unchanged.
    pub fn load_plugin(&mut self, name: &String, env: &ResolveEnv, io: &LoadOutcome) -> (r: Result<
        (VisualHandle, StyleHandle),
        LoadError,
    >)
        requires
            old(self).wf(),
        ensures
            final(self).wf(),
            ({
                let resolved = spec_resolve(
                    name@,
                    opt_string_view(env.search_path),
                    string_views(env.existing@),
                    env.ld_cache@,
                );
                let lr = spec_load(old(self)@, name@, resolved, *io);
                final(self)@ == lr.0 && r == lr.1
            }),
    {
        let resolved = get_ld_path(name.as_str(), env);
        let path = match resolved {
            Option::None => {
                return Result::Err(LoadError::NotFound);
            },
            Option::Some(p) => p,
        };
        if !io.open_ok {
            return Result::Err(LoadError::OpenFailed);
        }
        if !io.construct_found {
            return Result::Err(LoadError::ConstructFailed);
        }
        match self.find_record(&path) {
            Option::Some(_) => {
                return Result::Err(LoadError::AlreadyLoaded);
            },
            Option::None => {},
        }
        let ghost m0 = self@;
        let ghost pv = path@;
        let dir = parent_dir(path.as_str());
        if self.watcher_active && io.watch_ok {
            match self.find_watch(name) {
                Option::Some(_) => {},
                Option::None => {
                    self.watched.push(WatchEntry { name: name.clone(), dir });
                },
            }
        }
        proof {
            assert(self@.watched =~= spec_watched_after(m0, name@, spec_parent_dir(pv), io.watch_ok));
            assert(self@.records =~= m0.records);
        }
        let visual = visual_from_raw(io.visual_raw);
        let style = style_from_raw(io.style_raw);
        self.records.push(
            PluginRecord {
                name: name.clone(),
                library_path: path,
                instance: io.instance,
                visual,
                style,
            },
        );
        proof {
            assert(self@.records =~= m0.records.push(spec_record(name@, pv, *io)));
            assert(self@ =~= spec_load(m0, name@, Option::Some(pv), *io).0);
            lemma_load_preserves_wf(m0, name@, Option::Some(pv), *io);
        }
        Result::Ok((visual, style))
    }

    /// Removes the record with this library path and its watch entry, if
    /// loaded; unloading an unknown path is a silent no-op. Returns the
    /// directory whose watch should be dropped, if one was registered.
    /// The caller must tear the removed record's resources down in the
    /// fixed teardown order.
    pub fn unload_plugin(&mut self, lib_path: &String) -> (unwatched: Option<String>)
        requires
            old(self).wf(),
        ensures
            final(self).wf(),
            ({
                let ur = spec_unload(old(self)@, lib_path@);
                final(self)@ == ur.0 && opt_string_view(unwatched) == ur.1
            }),
    {
        let ghost m0 = self@;
        proof {
            lemma_unload_preserves_wf(m0, lib_path@);
        }
        match self.find_record(lib_path) {
            Option::None => {
                return None;
            },
            Option::Some(i) => {
                proof {
                    assert(0 <= i < m0.records.len() && m0.records[i as int].library_path
                        == lib_path@);
                    assert(has_path(m0, lib_path@));
                    let ci = record_index(m0, lib_path@);
                    assert(0 <= ci < m0.records.len() && m0.records[ci].library_path == lib_path@);
                    if ci != i {
                        assert(m0.records[ci].library_path == m0.records[i as int].library_path);
                        assert(false);
                    }
                }
                let name = self.records[i].name.clone();
                self.records.remove(i);
                proof {
                    assert(self@.records =~= m0.records.remove(i as int));
                    assert(self@.watched =~= m0.watched);
                }
                match self.find_watch(&name) {
                    Option::None => {
                        proof {
                            assert(self@ =~= spec_unload(m0, lib_path@).0);
                        }
                        return None;
                    },
                    Option::Some(j) => {
                        proof {
                            assert(0 <= j < m0.watched.len() && m0.watched[j as int].name
                                == name@);
                            assert(watched_has(m0.watched, name@));
                            let cj = watch_index(m0.watched, name@);
                            assert(0 <= cj < m0.watched.len() && m0.watched[cj].name == name@);
                            if cj != j {
                                assert(m0.watched[cj].name == m0.watched[j as int].name);
                                assert(false);
                            }
                        }
                        let entry_dir = self.watched[j].dir.clone();
                        self.watched.remove(j);
                        proof {
                            assert(self@.watched =~= m0.watched.remove(j as int));
                            assert(self@ =~= spec_unload(m0, lib_path@).0);
                        }
                        return Some(entry_dir);
                    },
                }
            },
        }
    }

    /// Removes every record (in load order) and every watch entry,
    /// returning the directories whose watches should be dropped, in
    /// order. The caller tears each record down in the fixed teardown
    /// order; afterwards the manager holds zero records and zero watched
    /// directories.
    pub fn unload_all(&mut self) -> (dirs: Vec<String>)
        ensures
            final(self)@.records =~= Seq::<RecordModel>::empty(),
            final(self)@.watched =~= Seq::<WatchModel>::empty(),
            final(self)@.watcher_active == old(self)@.watcher_active,
            string_views(dirs@) == old(self)@.watched.map_values(|w: WatchModel| w.dir),
            final(self).wf(),
    {
        let mut dirs: Vec<String> = Vec::new();
        let mut i: usize = 0;
        while i < self.watched.len()
            invariant
                i <= self.watched@.len(),
                self.records@ == old(self).records@,
                self.watched@ == old(self).watched@,
                self.watcher_active == old(self).watcher_active,
                dirs@.len() == i,
                forall|j: int| 0 <= j < i ==> dirs@[j]@ == self@.watched[j].dir,
            decreases self.watched@.len() - i,
        {
            dirs.push(self.watched[i].dir.clone());
            i = i + 1;
        }
        self.records = Vec::new();
        self.watched = Vec::new();
        proof {
            assert(self@.records =~= Seq::<RecordModel>::empty());
            assert(self@.watched =~= Seq::<WatchModel>::empty());
            assert(string_views(dirs@) =~= old(self)@.watched.map_values(|w: WatchModel| w.dir));
        }
        dirs
    }

    /// The library paths of the loaded records, in load order.
    pub fn paths(&self) -> (ps: Vec<String>)
        ensures
            string_views(ps@) == record_paths(self@),
    {
        let mut ps: Vec<String> = Vec::new();
        let mut i: usize = 0;
        while i < self.records.len()
            invariant
                i <= self.records@.len(),
                ps@.len() == i,
                forall|j: int| 0 <= j < i ==> ps@[j]@ == self@.records[j].library_path,
            decreases self.records@.len() - i,
        {
            ps.push(self.records[i].library_path.clone());
            i = i + 1;
        }
        proof {
            assert(string_views(ps@) =~= record_paths(self@));
        }
        ps
    }

    /// The visual handle of the plugin loaded from this library path.
    pub fn library_path_to_applet(&self, lib_filename: &String) -> (r: Option<VisualHandle>)
        requires
            self.wf(),
        ensures
            r == spec_visual_of(self@, lib_filename@),
    {
        match self.find_record(lib_filename) {
            Option::None => None,
            Option::Some(i) => {
                proof {
                    let ci = record_index(self@, lib_filename@);
                    assert(0 <= ci < self@.records.len() && self@.records[ci].library_path
                        == lib_filename@);
                    if ci != i {
                        assert(self@.records[ci].library_path == self@.records[
                            i as int
                        ].library_path);
                        assert(false);
                    }
                }
                Some(self.records[i].visual)
            },
        }
    }

    /// The logical name the plugin at this library path was loaded under.
    pub fn library_path_to_name(&self, lib_filename: &String) -> (r: Option<String>)
        requires
            self.wf(),
        ensures
            opt_string_view(r) == spec_name_of(self@, lib_filename@),
    {
        match self.find_record(lib_filename) {
            Option::None => None,
            Option::Some(i) => {
                proof {
                    let ci = record_index(self@, lib_filename@);
                    assert(0 <= ci < self@.records.len() && self@.records[ci].library_path
                        == lib_filename@);
                    if ci != i {
                        assert(self@.records[ci].library_path == self@.records[
                            i as int
                        ].library_path);
                        assert(false);
                    }
                }
                Some(self.records[i].name.clone())
            },
        }
    }
}

} // verus!
