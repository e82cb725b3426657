//! The application list of the settings screen: the rows shown, and the
//! definitions they edit, kept by name.
use vstd::prelude::*;
use crate::config::{AppDef, AppDefView};
use crate::name_map::{NameMap, as_map, keys_of, lemma_as_map_prefix};
use crate::settings::data::{
    AppEntry, AppEntryView, app_entry_to_def, app_to_entry_spec, build_app_entries,
    entry_to_app_spec,
};
use crate::config::copy_strings;
use crate::text::{concat2, owned};

verus! {

/// The views of a list of application rows.
pub open spec fn app_entry_views(rows: Seq<AppEntry>) -> Seq<AppEntryView> {
    rows.map_values(|e: AppEntry| e@)
}

/// A map of definitions, each taken by its view.
pub open spec fn defs_view(a: Map<Seq<char>, AppDef>) -> Map<Seq<char>, AppDefView> {
    Map::new(|k: Seq<char>| a.dom().contains(k), |k: Seq<char>| a[k]@)
}

/// The definitions held by name, each by its view.
pub open spec fn app_defs(m: Seq<(Seq<char>, AppDef)>) -> Map<Seq<char>, AppDefView> {
    defs_view(as_map(m))
}

/// The rows shown and the definitions edited.
pub struct AppsState {
    pub model: Vec<AppEntry>,
    pub entries: NameMap<AppDef>,
}

pub struct AppsStateView {
    pub model: Seq<AppEntryView>,
    pub entries: Map<Seq<char>, AppDefView>,
}

impl View for AppsState {
    type V = AppsStateView;

    open spec fn view(&self) -> AppsStateView {
        AppsStateView { model: app_entry_views(self.model@), entries: app_defs(self.entries@) }
    }
}

/// The definition a new application starts with.
pub open spec fn empty_app_def() -> AppDefView {
    AppDefView { cmd: Seq::empty(), args: Seq::empty(), label: None }
}

/// The row a new application starts with.
pub open spec fn empty_app_row(name: Seq<char>) -> AppEntryView {
    AppEntryView { name, cmd: Seq::empty(), args: Seq::empty(), label: Seq::empty() }
}

/// `add`: a new row at the end, and an empty definition under its name.
pub open spec fn apps_added(st: AppsStateView, name: Seq<char>) -> AppsStateView {
    AppsStateView {
        model: st.model.push(empty_app_row(name)),
        entries: st.entries.insert(name, empty_app_def()),
    }
}

/// `remove`: the row at `idx` and the definition under its name go; the name
/// is handed back. Out of range, nothing changes.
pub open spec fn apps_removed(st: AppsStateView, idx: int) -> (AppsStateView, Option<Seq<char>>) {
    if 0 <= idx < st.model.len() {
        let name = st.model[idx].name;
        (AppsStateView { model: st.model.remove(idx), entries: st.entries.remove(name) }, Some(name))
    } else {
        (st, None)
    }
}

/// `update`: the row at `idx` is replaced (when there is one), and the
/// definition under the row's name is set from it.
pub open spec fn apps_updated(st: AppsStateView, idx: int, entry: AppEntryView) -> AppsStateView {
    AppsStateView {
        model: if 0 <= idx < st.model.len() {
            st.model.update(idx, entry)
        } else {
            st.model
        },
        entries: st.entries.insert(entry.name, entry_to_app_spec(entry)),
    }
}

/// `duplicate`: a copy of the row at `idx`, named after it with `_copy`, is
/// appended with its definition; the new name is handed back. Out of range,
/// nothing changes.
pub open spec fn apps_duplicated(st: AppsStateView, idx: int) -> (AppsStateView, Option<Seq<char>>) {
    if 0 <= idx < st.model.len() {
        let row = st.model[idx];
        let name = row.name + "_copy"@;
        let copy = AppEntryView { name, ..row };
        (apps_updated(apps_added(st, name), st.model.len() as int, copy), Some(name))
    } else {
        (st, None)
    }
}

proof fn lemma_defs_insert(
    a: Map<Seq<char>, AppDef>,
    b: Map<Seq<char>, AppDef>,
    k: Seq<char>,
    x: AppDef,
    y: AppDef,
)
    requires
        defs_view(a) == defs_view(b),
        x@ == y@,
    ensures
        defs_view(a.insert(k, x)) == defs_view(b.insert(k, y)),
{
    assert forall|q: Seq<char>| a.dom().contains(q) == b.dom().contains(q) by {
        assert(defs_view(a).dom() == a.dom());
        assert(defs_view(b).dom() == b.dom());
        assert(defs_view(a).dom().contains(q) == defs_view(b).dom().contains(q));
    }
    assert forall|q: Seq<char>| #[trigger] a.insert(k, x).dom().contains(q) implies a.insert(k, x)[q]@
        == b.insert(k, y)[q]@ by {
        if q != k {
            assert(a.dom().contains(q));
            assert(b.dom().contains(q));
            assert(a.insert(k, x)[q] == a[q]);
            assert(b.insert(k, y)[q] == b[q]);
            assert(defs_view(a)[q] == a[q]@);
            assert(defs_view(b)[q] == b[q]@);
        }
    }
    assert(defs_view(a.insert(k, x)) =~= defs_view(b.insert(k, y)));
}

/// A copy of the definitions, name for name.
fn copy_apps(apps: &NameMap<AppDef>) -> (r: NameMap<AppDef>)
    ensures
        app_defs(r@) == app_defs(apps@),
{
    let mut r: NameMap<AppDef> = NameMap::new();
    let n = apps.len();
    let mut i: usize = 0;
    assert(app_defs(r@) =~= app_defs(apps@.subrange(0, 0)));
    while i < n
        invariant
            n == apps@.len(),
            i <= n,
            crate::name_map::keys_ascending(keys_of(apps@)),
            app_defs(r@) == app_defs(apps@.subrange(0, i as int)),
        decreases n - i,
    {
        let k = owned(apps.key_at(i).as_str());
        let d = apps.value_at(i).duplicate();
        let ghost before = r@;
        r.insert(k, d);
        proof {
            lemma_as_map_prefix(apps@, i as int);
            lemma_defs_insert(
                as_map(before),
                as_map(apps@.subrange(0, i as int)),
                apps@[i as int].0,
                d,
                apps@[i as int].1,
            );
        }
        i = i + 1;
    }
    assert(apps@.subrange(0, n as int) =~= apps@);
    r
}

impl AppsState {
    /// The rows and definitions of a configuration's applications.
    pub fn from_apps(apps: &NameMap<AppDef>) -> (s: AppsState)
        ensures
            s@.model.len() == apps@.len(),
            forall|i: int|
                0 <= i < apps@.len() ==> #[trigger] s@.model[i] == app_to_entry_spec(
                    apps@[i].0,
                    apps@[i].1@,
                ),
            s@.entries == app_defs(apps@),
    {
        let model = build_app_entries(apps);
        let entries = copy_apps(apps);
        let s = AppsState { model, entries };
        assert forall|i: int| 0 <= i < apps@.len() implies #[trigger] s@.model[i] == app_to_entry_spec(
            apps@[i].0,
            apps@[i].1@,
        ) by {
            assert(crate::config::app_entries(apps@)[i] == (apps@[i].0, apps@[i].1@));
        }
        s
    }

    /// Appends a new application with an empty definition.
    pub fn add(&mut self, name: String)
        ensures
            final(self)@ == apps_added(old(self)@, name@),
    {
        let ghost before = self@;
        let row = AppEntry {
            name: owned(name.as_str()),
            cmd: String::new(),
            args: Vec::new(),
            label: String::new(),
        };
        assert(row@.args =~= Seq::<Seq<char>>::empty());
        self.model.push(row);
        let d = AppDef::default();
        assert(d@.cmd =~= Seq::<char>::empty());
        assert(d@.args =~= Seq::<Seq<char>>::empty());
        self.entries.insert(name, d);
        assert(self@.model =~= apps_added(before, name@).model);
        assert(self@.entries =~= apps_added(before, name@).entries);
    }

    /// Removes the row at `idx` and the definition under its name, and hands
    /// the name back; `None` when there is no such row.
    pub fn remove(&mut self, idx: usize) -> (r: Option<String>)
        ensures
            (final(self)@, crate::config::opt_view(r)) == apps_removed(old(self)@, idx as int),
    {
        let ghost before = self@;
        if idx >= self.model.len() {
            return None;
        }
        let row = self.model.remove(idx);
        let name = row.name;
        self.entries.remove(name.as_str());
        assert(self@.model =~= apps_removed(before, idx as int).0.model);
        assert(self@.entries =~= apps_removed(before, idx as int).0.entries);
        Some(name)
    }

    /// Replaces the row at `idx` (when there is one) and sets the definition
    /// under the row's name from it.
    pub fn update(&mut self, idx: usize, entry: AppEntry)
        ensures
            final(self)@ == apps_updated(old(self)@, idx as int, entry@),
    {
        let ghost before = self@;
        let ghost ev = entry@;
        let def = app_entry_to_def(&entry);
        let name = owned(entry.name.as_str());
        if idx < self.model.len() {
            self.model.set(idx, entry);
        }
        self.entries.insert(name, def);
        assert(self@.model =~= apps_updated(before, idx as int, ev).model);
        assert(self@.entries =~= apps_updated(before, idx as int, ev).entries);
    }

    /// Appends a copy of the row at `idx`, named after it with `_copy`, and
    /// hands the new name back; `None` when there is no such row.
    pub fn duplicate(&mut self, idx: usize) -> (r: Option<String>)
        ensures
            (final(self)@, crate::config::opt_view(r)) == apps_duplicated(old(self)@, idx as int),
    {
        if idx >= self.model.len() {
            return None;
        }
        let ghost before = self@;
        let name = concat2(self.model[idx].name.as_str(), "_copy");
        let copy = AppEntry {
            name: owned(name.as_str()),
            cmd: owned(self.model[idx].cmd.as_str()),
            args: copy_strings(&self.model[idx].args),
            label: owned(self.model[idx].label.as_str()),
        };
        let ghost row = before.model[idx as int];
        assert(copy@ == AppEntryView { name: name@, ..row });
        let last = self.model.len();
        self.add(owned(name.as_str()));
        self.update(last, copy);
        Some(name)
    }

    /// The application definitions, by name.
    pub fn to_config(&self) -> (r: NameMap<AppDef>)
        ensures
            app_defs(r@) == self@.entries,
    {
        copy_apps(&self.entries)
    }
}

/// Removing the row that `add` appended undoes the `add`, when the name was
/// not in use.
pub proof fn law_apps_remove_undoes_add(st: AppsStateView, name: Seq<char>)
    requires
        !st.entries.contains_key(name),
    ensures
        apps_removed(apps_added(st, name), st.model.len() as int) == (st, Some(name)),
{
    let added = apps_added(st, name);
    assert(added.model.remove(st.model.len() as int) =~= st.model);
    assert(added.entries.remove(name) =~= st.entries);
}

} // verus!
