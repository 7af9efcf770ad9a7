//! The in-memory map registry: the catalogue of maps loaded during this
//! process and of maps discovered on disk, with the rules that decide when
//! a map is materialized, how updates mark entries dirty, and which entries
//! the shutdown persistence writes.

use vstd::prelude::*;

use crate::ids::fresh_uuid;
use crate::render::doc_spec;
use crate::render::fresh_page;
use crate::render::fresh_page_spec;
use crate::render::option_html;
use crate::render::option_html_string;
use crate::render::render_doc;
use crate::render::stored_page;
use crate::render::stored_page_spec;
use crate::render::Template;
use crate::render::TemplateView;
use crate::text::joined;
use crate::text::join_all;
use crate::text::str_eq;

verus! {

/// A map held in memory: its content, its optional label, and whether it
/// was modified since the last persist.
pub struct LoadedEntry {
    pub uuid: String,
    pub content: String,
    pub label: Option<String>,
    pub dirty: bool,
}

/// The mathematical content of a `LoadedEntry`.
pub struct LoadedInfo {
    pub uuid: Seq<char>,
    pub content: Seq<char>,
    pub label: Option<Seq<char>>,
    pub dirty: bool,
}

impl View for LoadedEntry {
    type V = LoadedInfo;

    open spec fn view(&self) -> LoadedInfo {
        LoadedInfo {
            uuid: self.uuid@,
            content: self.content@,
            label: self.label.deep_view(),
            dirty: self.dirty,
        }
    }
}

impl DeepView for LoadedEntry {
    type V = LoadedInfo;

    open spec fn deep_view(&self) -> LoadedInfo {
        self@
    }
}

/// A map discovered on disk but not yet materialized: the path of its
/// content file and its optional label.
pub struct LocalRecord {
    pub uuid: String,
    pub json_path: String,
    pub label: Option<String>,
}

/// The mathematical content of a `LocalRecord`.
pub struct LocalInfo {
    pub uuid: Seq<char>,
    pub json_path: Seq<char>,
    pub label: Option<Seq<char>>,
}

impl View for LocalRecord {
    type V = LocalInfo;

    open spec fn view(&self) -> LocalInfo {
        LocalInfo { uuid: self.uuid@, json_path: self.json_path@, label: self.label.deep_view() }
    }
}

impl DeepView for LocalRecord {
    type V = LocalInfo;

    open spec fn deep_view(&self) -> LocalInfo {
        self@
    }
}

/// The mathematical content of the registry: the loaded catalogue and the
/// on-disk catalogue, each a sequence of entries with pairwise distinct ids.
pub struct RegistryView {
    pub loaded: Seq<LoadedInfo>,
    pub local: Seq<LocalInfo>,
}

/// Index of the first loaded entry with id `k`.
pub open spec fn loaded_idx(s: Seq<LoadedInfo>, k: Seq<char>) -> Option<int>
    decreases s.len(),
{
    if s.len() == 0 {
        None
    } else if s[0].uuid == k {
        Some(0)
    } else {
        match loaded_idx(s.skip(1), k) {
            Some(j) => Some(j + 1),
            None => None,
        }
    }
}

/// The first loaded entry with id `k`.
pub open spec fn find_loaded(s: Seq<LoadedInfo>, k: Seq<char>) -> Option<LoadedInfo> {
    match loaded_idx(s, k) {
        Some(i) => Some(s[i]),
        None => None,
    }
}

/// Index of the first on-disk entry with id `k`.
pub open spec fn local_idx(s: Seq<LocalInfo>, k: Seq<char>) -> Option<int>
    decreases s.len(),
{
    if s.len() == 0 {
        None
    } else if s[0].uuid == k {
        Some(0)
    } else {
        match local_idx(s.skip(1), k) {
            Some(j) => Some(j + 1),
            None => None,
        }
    }
}

/// The first on-disk entry with id `k`.
pub open spec fn find_local(s: Seq<LocalInfo>, k: Seq<char>) -> Option<LocalInfo> {
    match local_idx(s, k) {
        Some(i) => Some(s[i]),
        None => None,
    }
}

pub proof fn lemma_loaded_idx(s: Seq<LoadedInfo>, k: Seq<char>)
    ensures
        match loaded_idx(s, k) {
            Some(i) => 0 <= i < s.len() && s[i].uuid == k && (forall|j: int|
                0 <= j < i ==> s[j].uuid != k),
            None => forall|j: int| 0 <= j < s.len() ==> s[j].uuid != k,
        },
    decreases s.len(),
{
    if s.len() > 0 && s[0].uuid != k {
        lemma_loaded_idx(s.skip(1), k);
        assert(forall|j: int| 1 <= j < s.len() ==> s[j] == s.skip(1)[j - 1]);
    }
}

pub proof fn lemma_local_idx(s: Seq<LocalInfo>, k: Seq<char>)
    ensures
        match local_idx(s, k) {
            Some(i) => 0 <= i < s.len() && s[i].uuid == k && (forall|j: int|
                0 <= j < i ==> s[j].uuid != k),
            None => forall|j: int| 0 <= j < s.len() ==> s[j].uuid != k,
        },
    decreases s.len(),
{
    if s.len() > 0 && s[0].uuid != k {
        lemma_local_idx(s.skip(1), k);
        assert(forall|j: int| 1 <= j < s.len() ==> s[j] == s.skip(1)[j - 1]);
    }
}

/// Pairwise distinct ids among the loaded entries.
pub open spec fn distinct_loaded(s: Seq<LoadedInfo>) -> bool {
    forall|i: int, j: int| 0 <= i < j < s.len() ==> s[i].uuid != s[j].uuid
}

/// Pairwise distinct ids among the on-disk entries.
pub open spec fn distinct_local(s: Seq<LocalInfo>) -> bool {
    forall|i: int, j: int| 0 <= i < j < s.len() ==> s[i].uuid != s[j].uuid
}

/// Well-formedness of the registry: each catalogue keys its entries by id.
pub open spec fn registry_wf(v: RegistryView) -> bool {
    distinct_loaded(v.loaded) && distinct_local(v.local)
}

/// The registry. A given id may be loaded, on disk, in both catalogues, or
/// (for a freshly created map) in neither; when it is in both, the loaded
/// entry is authoritative.
pub struct MindMap {
    loaded: Vec<LoadedEntry>,
    local: Vec<LocalRecord>,
}

impl View for MindMap {
    type V = RegistryView;

    closed spec fn view(&self) -> RegistryView {
        RegistryView { loaded: self.loaded.deep_view(), local: self.local.deep_view() }
    }
}

/// The on-disk catalogue built from a startup scan, first record of each id
/// winning.
pub open spec fn scan_spec(rs: Seq<LocalInfo>, acc: Seq<LocalInfo>) -> Seq<LocalInfo>
    decreases rs.len(),
{
    if rs.len() == 0 {
        acc
    } else {
        scan_spec(
            rs.skip(1),
            if local_idx(acc, rs[0].uuid) is Some {
                acc
            } else {
                acc.push(rs[0])
            },
        )
    }
}

/// An update of the loaded catalogue: overwrite the entry of `k` when one
/// exists, append one otherwise; either way the entry becomes
/// `(c, l, dirty = true)`. The on-disk catalogue is untouched.
pub open spec fn update_spec(
    m: RegistryView,
    k: Seq<char>,
    c: Seq<char>,
    l: Option<Seq<char>>,
) -> RegistryView {
    let e = LoadedInfo { uuid: k, content: c, label: l, dirty: true };
    match loaded_idx(m.loaded, k) {
        Some(i) => RegistryView { loaded: m.loaded.update(i, e), local: m.local },
        None => RegistryView { loaded: m.loaded.push(e), local: m.local },
    }
}

fn find_local_in(v: &Vec<LocalRecord>, uuid: &str) -> (r: Option<usize>)
    ensures
        match r {
            Some(i) => local_idx(v.deep_view(), uuid@) == Some(i as int),
            None => local_idx(v.deep_view(), uuid@) is None,
        },
{
    let mut i: usize = 0;
    while i < v.len()
        invariant
            0 <= i <= v.len(),
            forall|j: int| 0 <= j < i ==> v.deep_view()[j].uuid != uuid@,
        decreases v.len() - i,
    {
        if str_eq(v[i].uuid.as_str(), uuid) {
            proof {
                lemma_local_idx(v.deep_view(), uuid@);
                assert(v.deep_view()[i as int].uuid == uuid@);
                match local_idx(v.deep_view(), uuid@) {
                    Some(ix) => {
                        if ix != i {
                            assert(v.deep_view()[if ix < i {
                                ix
                            } else {
                                i as int
                            }].uuid != uuid@);
                            assert(false);
                        }
                    },
                    None => {
                        assert(v.deep_view()[i as int].uuid != uuid@);
                        assert(false);
                    },
                }
            }
            return Some(i);
        }
        i = i + 1;
    }
    proof {
        lemma_local_idx(v.deep_view(), uuid@);
    }
    None
}

impl MindMap {
    /// The registry keys both catalogues by id.
    pub open spec fn wf(&self) -> bool {
        registry_wf(self@)
    }

    /// Build the registry from the records of a startup scan of the output
    /// directory: nothing is loaded yet, and the first record of each id is
    /// kept.
    pub fn new(records: Vec<LocalRecord>) -> (r: MindMap)
        ensures
            r.wf(),
            r@.loaded == Seq::<LoadedInfo>::empty(),
            r@.local == scan_spec(records.deep_view(), Seq::empty()),
    {
        let ghost all = records.deep_view();
        let mut rest = records;
        let mut local: Vec<LocalRecord> = Vec::new();
        proof {
            assert(local.deep_view() =~= Seq::<LocalInfo>::empty());
        }
        while rest.len() > 0
            invariant
                scan_spec(all, Seq::empty()) == scan_spec(rest.deep_view(), local.deep_view()),
                distinct_local(local.deep_view()),
            decreases rest.len(),
        {
            let ghost restv = rest.deep_view();
            let ghost localv = local.deep_view();
            let rec = rest.remove(0);
            proof {
                assert(rec@ == restv[0]);
                assert(rest.deep_view() =~= restv.skip(1));
            }
            match find_local_in(&local, rec.uuid.as_str()) {
                Some(_) => {
                    proof {
                        assert(local_idx(localv, restv[0].uuid) is Some);
                    }
                },
                None => {
                    proof {
                        lemma_local_idx(localv, rec.uuid@);
                    }
                    local.push(rec);
                    proof {
                        assert(local.deep_view() =~= localv.push(restv[0]));
                        assert(distinct_local(localv.push(restv[0])));
                    }
                },
            }
        }
        proof {
            assert(rest.deep_view() =~= Seq::<LocalInfo>::empty());
            assert(scan_spec(rest.deep_view(), local.deep_view()) == local.deep_view());
        }
        let r = MindMap { loaded: Vec::new(), local };
        proof {
            assert(r@.loaded =~= Seq::<LoadedInfo>::empty());
        }
        r
    }

    fn find_loaded_pos(&self, uuid: &str) -> (r: Option<usize>)
        ensures
            match r {
                Some(i) => loaded_idx(self@.loaded, uuid@) == Some(i as int),
                None => loaded_idx(self@.loaded, uuid@) is None,
            },
    {
        let mut i: usize = 0;
        while i < self.loaded.len()
            invariant
                0 <= i <= self.loaded.len(),
                forall|j: int| 0 <= j < i ==> self@.loaded[j].uuid != uuid@,
            decreases self.loaded.len() - i,
        {
            if str_eq(self.loaded[i].uuid.as_str(), uuid) {
                proof {
                    lemma_loaded_idx(self@.loaded, uuid@);
                    assert(self@.loaded[i as int].uuid == uuid@);
                    match loaded_idx(self@.loaded, uuid@) {
                        Some(ix) => {
                            if ix != i {
                                assert(self@.loaded[if ix < i {
                                    ix
                                } else {
                                    i as int
                                }].uuid != uuid@);
                                assert(false);
                            }
                        },
                        None => {
                            assert(self@.loaded[i as int].uuid != uuid@);
                            assert(false);
                        },
                    }
                }
                return Some(i);
            }
            i = i + 1;
        }
        proof {
            lemma_loaded_idx(self@.loaded, uuid@);
        }
        None
    }

    fn find_local_pos(&self, uuid: &str) -> (r: Option<usize>)
        ensures
            match r {
                Some(i) => local_idx(self@.local, uuid@) == Some(i as int),
                None => local_idx(self@.local, uuid@) is None,
            },
    {
        find_local_in(&self.local, uuid)
    }

    /// Overwrite or create the loaded entry of `uuid` with `(content,
    /// label)` and mark it dirty. Never touches the on-disk catalogue.
    pub fn update_loaded_mindmap(&mut self, uuid: String, content: String, label: Option<String>)
        requires
            old(self).wf(),
        ensures
            final(self).wf(),
            final(self)@ == update_spec(old(self)@, uuid@, content@, label.deep_view()),
    {
        let ghost m = self@;
        let pos = self.find_loaded_pos(uuid.as_str());
        let ghost k = uuid@;
        let entry = LoadedEntry { uuid, content, label, dirty: true };
        match pos {
            Some(i) => {
                proof {
                    lemma_loaded_idx(m.loaded, k);
                }
                self.loaded[i] = entry;
                proof {
                    assert(self@.loaded =~= m.loaded.update(i as int, entry@));
                    assert(self@ == update_spec(m, k, entry@.content, entry@.label));
                    assert(distinct_loaded(self@.loaded));
                }
            },
            None => {
                proof {
                    lemma_loaded_idx(m.loaded, k);
                }
                self.loaded.push(entry);
                proof {
                    assert(self@.loaded =~= m.loaded.push(entry@));
                    assert(distinct_loaded(self@.loaded));
                }
            },
        }
    }
}

/// The separator between picker options in the rendered pulldown block.
pub open spec fn pd_sep() -> Seq<char> {
    "\n          "@
}

/// Picker entries contributed by the on-disk catalogue: the ids not
/// already loaded, in catalogue order, with their labels.
pub open spec fn local_pd(local: Seq<LocalInfo>, loaded: Seq<LoadedInfo>) -> Seq<
    (Seq<char>, Option<Seq<char>>),
>
    decreases local.len(),
{
    if local.len() == 0 {
        Seq::empty()
    } else {
        let rest = local_pd(local.skip(1), loaded);
        if loaded_idx(loaded, local[0].uuid) is None {
            seq![(local[0].uuid, local[0].label)] + rest
        } else {
            rest
        }
    }
}

proof fn lemma_local_pd_push(local: Seq<LocalInfo>, x: LocalInfo, loaded: Seq<LoadedInfo>)
    ensures
        local_pd(local.push(x), loaded) == local_pd(local, loaded) + (if loaded_idx(
            loaded,
            x.uuid,
        ) is None {
            seq![(x.uuid, x.label)]
        } else {
            Seq::<(Seq<char>, Option<Seq<char>>)>::empty()
        }),
    decreases local.len(),
{
    let tail = if loaded_idx(loaded, x.uuid) is None {
        seq![(x.uuid, x.label)]
    } else {
        Seq::<(Seq<char>, Option<Seq<char>>)>::empty()
    };
    if local.len() == 0 {
        assert(local.push(x)[0] == x);
        assert(local.push(x).skip(1) =~= Seq::<LocalInfo>::empty());
        assert(local_pd(local.push(x).skip(1), loaded) =~= Seq::<
            (Seq<char>, Option<Seq<char>>),
        >::empty());
        assert(local_pd(local.push(x), loaded) =~= local_pd(local, loaded) + tail);
    } else {
        assert(local.push(x)[0] == local[0]);
        assert(local.push(x).skip(1) =~= local.skip(1).push(x));
        lemma_local_pd_push(local.skip(1), x, loaded);
        assert(local_pd(local.skip(1).push(x), loaded) == local_pd(local.skip(1), loaded) + tail);
        assert(local_pd(local.push(x), loaded) =~= local_pd(local, loaded) + tail);
    }
}

/// Whether some catalogue of the registry knows the id `k`.
pub open spec fn has_uuid(m: RegistryView, k: Seq<char>) -> bool {
    loaded_idx(m.loaded, k) is Some || local_idx(m.local, k) is Some
}

/// The picker entries for the editor page of `u`: every loaded id, then
/// every on-disk id not already loaded, then `u` itself when it is new.
pub open spec fn pd_entries(m: RegistryView, u: Seq<char>) -> Seq<(Seq<char>, Option<Seq<char>>)> {
    Seq::new(m.loaded.len(), |i: int| (m.loaded[i].uuid, m.loaded[i].label)) + local_pd(
        m.local,
        m.loaded,
    ) + (if has_uuid(m, u) {
        Seq::<(Seq<char>, Option<Seq<char>>)>::empty()
    } else {
        seq![(u, None)]
    })
}

/// The rendered picker options of a sequence of entries, each selected
/// exactly when its id is `u`.
pub open spec fn entries_html(es: Seq<(Seq<char>, Option<Seq<char>>)>, u: Seq<char>) -> Seq<
    Seq<char>,
> {
    Seq::new(es.len(), |i: int| option_html(es[i].0, es[i].1, es[i].0 == u))
}

proof fn lemma_entries_html_concat(
    x: Seq<(Seq<char>, Option<Seq<char>>)>,
    y: Seq<(Seq<char>, Option<Seq<char>>)>,
    u: Seq<char>,
)
    ensures
        entries_html(x + y, u) == entries_html(x, u) + entries_html(y, u),
{
    assert forall|j: int| 0 <= j < x.len() + y.len() implies entries_html(x + y, u)[j]
        == (entries_html(x, u) + entries_html(y, u))[j] by {
        if j < x.len() {
            assert((x + y)[j] == x[j]);
        } else {
            assert((x + y)[j] == y[j - x.len()]);
        }
    }
    assert(entries_html(x + y, u) =~= entries_html(x, u) + entries_html(y, u));
}

/// The map-picker option list for the editor page of `u`.
pub open spec fn pulldown_spec(m: RegistryView, u: Seq<char>) -> Seq<Seq<char>> {
    entries_html(pd_entries(m, u), u)
}

/// The registry after looking up `u` with the outcome `disk` of the disk
/// read that `local_json_path` asked for, and the content and label found:
/// a loaded entry answers directly; an on-disk entry answers through the
/// read and is materialized with `dirty == false`; otherwise nothing.
pub open spec fn get_local_spec(
    m: RegistryView,
    u: Seq<char>,
    disk: Option<Seq<char>>,
) -> (RegistryView, Option<(Seq<char>, Option<Seq<char>>)>) {
    match find_loaded(m.loaded, u) {
        Some(e) => (m, Some((e.content, e.label))),
        None => match find_local(m.local, u) {
            Some(le) => match disk {
                Some(c) => (
                    RegistryView {
                        loaded: m.loaded.push(
                            LoadedInfo { uuid: u, content: c, label: le.label, dirty: false },
                        ),
                        local: m.local,
                    },
                    Some((c, le.label)),
                ),
                None => (m, None),
            },
            None => (m, None),
        },
    }
}

/// A map whose content must be read from disk before `get_local_mindmap`
/// can answer for `u`: on disk but not yet loaded.
pub open spec fn needs_disk(m: RegistryView, u: Seq<char>) -> bool {
    loaded_idx(m.loaded, u) is None && local_idx(m.local, u) is Some
}

/// The document of `u` offered for download: rendered from the loaded
/// entry, absent when `u` is not loaded.
pub open spec fn html_content_spec(m: RegistryView, u: Seq<char>, t: TemplateView) -> Option<
    Seq<char>,
> {
    match find_loaded(m.loaded, u) {
        Some(e) => Some(doc_spec(t, u, e.content, e.label)),
        None => None,
    }
}

/// One entry of the shutdown persistence plan: the files to write for one
/// dirty map.
pub struct SaveItem {
    pub uuid: String,
    pub html: String,
    pub json: String,
    pub label: Option<String>,
}

/// The mathematical content of a `SaveItem`.
pub struct SaveItemView {
    pub uuid: Seq<char>,
    pub html: Seq<char>,
    pub json: Seq<char>,
    pub label: Option<Seq<char>>,
}

impl View for SaveItem {
    type V = SaveItemView;

    open spec fn view(&self) -> SaveItemView {
        SaveItemView {
            uuid: self.uuid@,
            html: self.html@,
            json: self.json@,
            label: self.label.deep_view(),
        }
    }
}

impl DeepView for SaveItem {
    type V = SaveItemView;

    open spec fn deep_view(&self) -> SaveItemView {
        self@
    }
}

/// The shutdown persistence plan: one item for each dirty loaded entry, in
/// catalogue order, carrying the rendered document, the content, and the
/// label when present.
pub open spec fn save_plan_spec(loaded: Seq<LoadedInfo>, t: TemplateView) -> Seq<SaveItemView>
    decreases loaded.len(),
{
    if loaded.len() == 0 {
        Seq::empty()
    } else {
        let rest = save_plan_spec(loaded.skip(1), t);
        if loaded[0].dirty {
            seq![
                SaveItemView {
                    uuid: loaded[0].uuid,
                    html: doc_spec(t, loaded[0].uuid, loaded[0].content, loaded[0].label),
                    json: loaded[0].content,
                    label: loaded[0].label,
                },
            ] + rest
        } else {
            rest
        }
    }
}

proof fn lemma_save_plan_push(loaded: Seq<LoadedInfo>, x: LoadedInfo, t: TemplateView)
    ensures
        save_plan_spec(loaded.push(x), t) == save_plan_spec(loaded, t) + (if x.dirty {
            seq![
                SaveItemView {
                    uuid: x.uuid,
                    html: doc_spec(t, x.uuid, x.content, x.label),
                    json: x.content,
                    label: x.label,
                },
            ]
        } else {
            Seq::<SaveItemView>::empty()
        }),
    decreases loaded.len(),
{
    let tail = if x.dirty {
        seq![
            SaveItemView {
                uuid: x.uuid,
                html: doc_spec(t, x.uuid, x.content, x.label),
                json: x.content,
                label: x.label,
            },
        ]
    } else {
        Seq::<SaveItemView>::empty()
    };
    if loaded.len() == 0 {
        assert(loaded.push(x)[0] == x);
        assert(loaded.push(x).skip(1) =~= Seq::<LoadedInfo>::empty());
        assert(save_plan_spec(loaded.push(x).skip(1), t) =~= Seq::<SaveItemView>::empty());
        assert(save_plan_spec(loaded.push(x), t) =~= save_plan_spec(loaded, t) + tail);
    } else {
        assert(loaded.push(x)[0] == loaded[0]);
        assert(loaded.push(x).skip(1) =~= loaded.skip(1).push(x));
        lemma_save_plan_push(loaded.skip(1), x, t);
        assert(save_plan_spec(loaded.skip(1).push(x), t) == save_plan_spec(loaded.skip(1), t)
            + tail);
        assert(save_plan_spec(loaded.push(x), t) =~= save_plan_spec(loaded, t) + tail);
    }
}

/// A submitted label, normalized: an empty string counts as absent.
pub open spec fn normalized_label(l: Option<Seq<char>>) -> Option<Seq<char>> {
    match l {
        Some(s) => if s.len() == 0 {
            None
        } else {
            Some(s)
        },
        None => None,
    }
}

/// Normalize a submitted label: an empty string counts as absent.
pub fn normalize_label(label: Option<String>) -> (r: Option<String>)
    ensures
        r.deep_view() == normalized_label(label.deep_view()),
{
    match label {
        Some(l) => {
            if l.as_str().is_empty() {
                None
            } else {
                Some(l)
            }
        },
        None => None,
    }
}

fn clone_opt(o: &Option<String>) -> (r: Option<String>)
    ensures
        r.deep_view() == o.deep_view(),
{
    match o {
        Some(s) => Some(s.clone()),
        None => None,
    }
}

impl MindMap {
    /// The map-picker option list for the editor page of `uuid`: one
    /// option per known id, with `uuid` selected, appended fresh when the
    /// registry does not know it.
    pub fn pulldown(&self, uuid: &str) -> (r: Vec<String>)
        requires
            self.wf(),
        ensures
            r.deep_view() == pulldown_spec(self@, uuid@),
    {
        let ghost m = self@;
        let ghost u = uuid@;
        let mut out: Vec<String> = Vec::new();
        let mut found = false;
        let mut i: usize = 0;
        while i < self.loaded.len()
            invariant
                m == self@,
                u == uuid@,
                0 <= i <= self.loaded.len(),
                m.loaded.len() == self.loaded.len(),
                out.deep_view() =~= Seq::new(
                    i as nat,
                    |j: int| option_html(m.loaded[j].uuid, m.loaded[j].label, m.loaded[j].uuid == u),
                ),
                found == exists|j: int| 0 <= j < i && m.loaded[j].uuid == u,
            decreases self.loaded.len() - i,
        {
            let e = &self.loaded[i];
            proof {
                assert(m.loaded[i as int] == e@);
            }
            let sel = str_eq(e.uuid.as_str(), uuid);
            let lbl_ref = e.label.as_ref();
            let s = option_html_string(e.uuid.as_str(), lbl_ref, sel);
            proof {
                assert(lbl_ref.deep_view() == e@.label);
                assert(s@ == option_html(m.loaded[i as int].uuid, m.loaded[i as int].label, m.loaded[i as int].uuid == u));
            }
            let ghost out0 = out.deep_view();
            out.push(s);
            proof {
                if sel {
                    assert(m.loaded[i as int].uuid == u);
                }
                let ghost target = Seq::new(
                    (i + 1) as nat,
                    |j: int| option_html(m.loaded[j].uuid, m.loaded[j].label, m.loaded[j].uuid == u),
                );
                assert(out0.len() == i as int);
                assert(out@.len() == i + 1);
                assert(out.deep_view().len() == i + 1);
                assert forall|j: int| 0 <= j < i + 1 implies out.deep_view()[j] == target[j] by {
                    if j < i {
                        assert(out.deep_view()[j] == out0[j]);
                    } else {
                        assert(out.deep_view()[j] == s@);
                    }
                }
                assert(out.deep_view() =~= target);
            }
            found = found || sel;
            i = i + 1;
        }
        let ghost loaded_part = entries_html(
            Seq::new(m.loaded.len(), |j: int| (m.loaded[j].uuid, m.loaded[j].label)),
            u,
        );
        proof {
            lemma_loaded_idx(m.loaded, u);
            assert(found == (loaded_idx(m.loaded, u) is Some));
            assert(out.deep_view() =~= loaded_part);
            assert(m.local.take(0) =~= Seq::<LocalInfo>::empty());
            assert(out.deep_view() =~= loaded_part + entries_html(
                local_pd(m.local.take(0), m.loaded),
                u,
            ));
        }
        let mut p: usize = 0;
        while p < self.local.len()
            invariant
                m == self@,
                u == uuid@,
                0 <= p <= self.local.len(),
                m.local.len() == self.local.len(),
                loaded_part == entries_html(
                    Seq::new(m.loaded.len(), |j: int| (m.loaded[j].uuid, m.loaded[j].label)),
                    u,
                ),
                out.deep_view() =~= loaded_part + entries_html(
                    local_pd(m.local.take(p as int), m.loaded),
                    u,
                ),
                found == (loaded_idx(m.loaded, u) is Some || exists|j: int|
                    0 <= j < p && m.local[j].uuid == u && loaded_idx(
                        m.loaded,
                        m.local[j].uuid,
                    ) is None),
            decreases self.local.len() - p,
        {
            let e = &self.local[p];
            let ghost before = local_pd(m.local.take(p as int), m.loaded);
            proof {
                assert(m.local[p as int] == e@);
            }
            proof {
                assert(m.local.take(p + 1) =~= m.local.take(p as int).push(m.local[p as int]));
                lemma_local_pd_push(m.local.take(p as int), m.local[p as int], m.loaded);
            }
            match self.find_loaded_pos(e.uuid.as_str()) {
                None => {
                    let sel = str_eq(e.uuid.as_str(), uuid);
                    let lbl_ref = e.label.as_ref();
                    let s = option_html_string(e.uuid.as_str(), lbl_ref, sel);
                    proof {
                        assert(lbl_ref.deep_view() == e@.label);
                        assert(s@ == option_html(
                            m.local[p as int].uuid,
                            m.local[p as int].label,
                            m.local[p as int].uuid == u,
                        ));
                    }
                    let ghost out0 = out.deep_view();
                    out.push(s);
                    proof {
                        if sel {
                            assert(m.local[p as int].uuid == u);
                        }
                        assert(local_pd(m.local.take(p + 1), m.loaded) =~= before + seq![
                            (m.local[p as int].uuid, m.local[p as int].label),
                        ]);
                        let ghost target = loaded_part + entries_html(
                            local_pd(m.local.take(p + 1), m.loaded),
                            u,
                        );
                        assert(target.len() == out0.len() + 1);
                        assert forall|j: int| 0 <= j < out0.len() + 1 implies out.deep_view()[j]
                            == target[j] by {
                            if j < out0.len() {
                                assert(out.deep_view()[j] == out0[j]);
                                assert(target[j] == (loaded_part + entries_html(
                                    local_pd(m.local.take(p as int), m.loaded),
                                    u,
                                ))[j]);
                            } else {
                                assert(out.deep_view()[j] == s@);
                                assert(target[j] == entries_html(
                                    local_pd(m.local.take(p + 1), m.loaded),
                                    u,
                                )[j - loaded_part.len()]);
                            }
                        }
                        assert(out.deep_view() =~= target);
                    }
                    found = found || sel;
                },
                Some(_) => {
                    proof {
                        assert(local_pd(m.local.take(p + 1), m.loaded) =~= before);
                    }
                },
            }
            p = p + 1;
        }
        proof {
            assert(m.local.take(m.local.len() as int) =~= m.local);
            lemma_local_idx(m.local, u);
            if found != has_uuid(m, u) {
                if found {
                    assert(loaded_idx(m.loaded, u) is Some || local_idx(m.local, u) is Some);
                } else {
                    assert(loaded_idx(m.loaded, u) is None);
                    let j0 = local_idx(m.local, u)->Some_0;
                    assert(m.local[j0].uuid == u && loaded_idx(m.loaded, m.local[j0].uuid) is None);
                }
                assert(false);
            }
        }
        let ghost a = Seq::new(m.loaded.len(), |j: int| (m.loaded[j].uuid, m.loaded[j].label));
        let ghost b = local_pd(m.local, m.loaded);
        proof {
            lemma_entries_html_concat(a, b, u);
            assert(out.deep_view() == entries_html(a + b, u));
        }
        if !found {
            let s = option_html_string(uuid, None, true);
            let ghost out0 = out.deep_view();
            out.push(s);
            proof {
                let ghost es = (a + b).push((u, None));
                assert(es =~= a + b + seq![(u, None::<Seq<char>>)]);
                let ghost target = entries_html(es, u);
                assert(target.len() == out0.len() + 1);
                assert forall|j: int| 0 <= j < out0.len() + 1 implies out.deep_view()[j]
                    == target[j] by {
                    if j < out0.len() {
                        assert(out.deep_view()[j] == out0[j]);
                        assert(es[j] == (a + b)[j]);
                    } else {
                        assert(out.deep_view()[j] == s@);
                        assert(es[j] == (u, None::<Seq<char>>));
                    }
                }
                assert(out.deep_view() =~= target);
                assert(pd_entries(m, u) =~= es);
            }
        } else {
            proof {
                assert(pd_entries(m, u) =~= a + b);
            }
        }
        proof {
            assert(out.deep_view() == entries_html(pd_entries(m, u), u));
        }
        out
    }

    /// The picker options joined into the block spliced into a page.
    pub fn html_pulldown(&self, uuid: &str) -> (r: String)
        requires
            self.wf(),
        ensures
            r@ == joined(pulldown_spec(self@, uuid@), pd_sep()),
    {
        let pd = self.pulldown(uuid);
        join_all(&pd, "\n          ")
    }

    /// The path of the content file that must be read before
    /// `get_local_mindmap` can answer for `uuid`, when a read is needed at
    /// all: `uuid` known on disk but not yet loaded.
    pub fn local_json_path(&self, uuid: &str) -> (r: Option<String>)
        requires
            self.wf(),
        ensures
            r.deep_view() == (if needs_disk(self@, uuid@) {
                Some(find_local(self@.local, uuid@)->Some_0.json_path)
            } else {
                None::<Seq<char>>
            }),
    {
        match self.find_loaded_pos(uuid) {
            Some(_) => None,
            None => match self.find_local_pos(uuid) {
                Some(j) => {
                    proof {
                        lemma_local_idx(self@.local, uuid@);
                        assert(find_local(self@.local, uuid@) == Some(self@.local[j as int]));
                        assert(self@.local[j as int] == self.local@[j as int]@);
                    }
                    Some(self.local[j].json_path.clone())
                },
                None => None,
            },
        }
    }

    /// Look up the map `uuid` for the editor, materializing it from the
    /// disk read `disk` when it was only on disk; return its content and
    /// label together with the pulldown computed after any
    /// materialization.
    pub fn get_local_mindmap(&mut self, uuid: &str, disk: Option<String>) -> (r: (
        Option<(String, Option<String>)>,
        String,
    ))
        requires
            old(self).wf(),
        ensures
            final(self).wf(),
            final(self)@ == get_local_spec(old(self)@, uuid@, disk.deep_view()).0,
            r.0.deep_view() == get_local_spec(old(self)@, uuid@, disk.deep_view()).1,
            r.1@ == joined(pulldown_spec(final(self)@, uuid@), pd_sep()),
    {
        let ghost m = self@;
        let ghost u = uuid@;
        let result: Option<(String, Option<String>)> = match self.find_loaded_pos(uuid) {
            Some(i) => {
                proof {
                    lemma_loaded_idx(m.loaded, u);
                }
                let e = &self.loaded[i];
                Some((e.content.clone(), clone_opt(&e.label)))
            },
            None => match self.find_local_pos(uuid) {
                Some(j) => match disk {
                    Some(c) => {
                        proof {
                            lemma_local_idx(m.local, u);
                            lemma_loaded_idx(m.loaded, u);
                        }
                        let lbl = clone_opt(&self.local[j].label);
                        let entry = LoadedEntry {
                            uuid: String::from_str(uuid),
                            content: c.clone(),
                            label: clone_opt(&lbl),
                            dirty: false,
                        };
                        self.loaded.push(entry);
                        proof {
                            assert(self@.loaded =~= get_local_spec(m, u, disk.deep_view()).0.loaded);
                            assert(distinct_loaded(self@.loaded));
                        }
                        Some((c, lbl))
                    },
                    None => None,
                },
                None => None,
            },
        };
        let pd = self.html_pulldown(uuid);
        (result, pd)
    }

    /// The self-contained document of `uuid` for download, present exactly
    /// when `uuid` is loaded.
    pub fn html_content(&self, uuid: &str, tpl: &Template) -> (r: Option<String>)
        requires
            self.wf(),
        ensures
            r.deep_view() == html_content_spec(self@, uuid@, tpl@),
    {
        match self.find_loaded_pos(uuid) {
            Some(i) => {
                proof {
                    lemma_loaded_idx(self@.loaded, uuid@);
                }
                let e = &self.loaded[i];
                Some(render_doc(tpl, uuid, e.content.as_str(), e.label.as_ref()))
            },
            None => None,
        }
    }

    /// The shutdown persistence plan: exactly the dirty loaded entries, in
    /// catalogue order, with their rendered documents. The caller writes
    /// the files; the dirty marks are left standing.
    pub fn save_mindmap(&self, tpl: &Template) -> (r: Vec<SaveItem>)
        requires
            self.wf(),
        ensures
            r.deep_view() == save_plan_spec(self@.loaded, tpl@),
    {
        let ghost m = self@;
        let mut out: Vec<SaveItem> = Vec::new();
        let mut i: usize = 0;
        proof {
            assert(m.loaded.take(0) =~= Seq::<LoadedInfo>::empty());
            assert(out.deep_view() =~= save_plan_spec(m.loaded.take(0), tpl@));
        }
        while i < self.loaded.len()
            invariant
                m == self@,
                0 <= i <= self.loaded.len(),
                m.loaded.len() == self.loaded.len(),
                out.deep_view() =~= save_plan_spec(m.loaded.take(i as int), tpl@),
            decreases self.loaded.len() - i,
        {
            proof {
                assert(m.loaded.take(i + 1) =~= m.loaded.take(i as int).push(m.loaded[i as int]));
                lemma_save_plan_push(m.loaded.take(i as int), m.loaded[i as int], tpl@);
            }
            let e = &self.loaded[i];
            if e.dirty {
                let html = render_doc(tpl, e.uuid.as_str(), e.content.as_str(), e.label.as_ref());
                let item = SaveItem {
                    uuid: e.uuid.clone(),
                    html,
                    json: e.content.clone(),
                    label: clone_opt(&e.label),
                };
                out.push(item);
                proof {
                    assert(out.deep_view() =~= save_plan_spec(m.loaded.take(i + 1), tpl@));
                }
            }
            i = i + 1;
        }
        proof {
            assert(m.loaded.take(m.loaded.len() as int) =~= m.loaded);
        }
        out
    }

    /// The download artifact for `uuid`: the content-disposition header
    /// value and the body. A loaded map yields its document under
    /// `<uuid>.html`; an unknown id yields a plaintext explanation under
    /// `uuid_not_found.txt`.
    pub fn download_artifact(&self, uuid: &str, tpl: &Template) -> (r: (String, String))
        requires
            self.wf(),
        ensures
            match html_content_spec(self@, uuid@, tpl@) {
                Some(h) => r.0@ == "attachment; filename=\""@ + uuid@ + ".html\""@ && r.1@ == h,
                None => r.0@ == "attachment; filename=\"uuid_not_found.txt\""@ && r.1@
                    == "Unable to retrieve the relevant mindmap due to uuid "@ + uuid@
                    + " not found."@,
            },
    {
        match self.html_content(uuid, tpl) {
            Some(content) => {
                let mut disp = String::from_str("attachment; filename=\"");
                disp.append(uuid);
                disp.append(".html\"");
                (disp, content)
            },
            None => {
                let disp = String::from_str("attachment; filename=\"uuid_not_found.txt\"");
                let mut body = String::from_str(
                    "Unable to retrieve the relevant mindmap due to uuid ",
                );
                body.append(uuid);
                body.append(" not found.");
                (disp, body)
            },
        }
    }

    /// The editor page for a brand-new map: a fresh id and the page with
    /// that id selected in the picker.
    pub fn index_page(&self, tpl: &Template, addr: &str, port: u16) -> (r: (String, String))
        requires
            self.wf(),
        ensures
            r.0@.len() == 36,
            r.1@ == fresh_page_spec(
                tpl@,
                r.0@,
                addr@,
                port,
                joined(pulldown_spec(self@, r.0@), pd_sep()),
            ),
    {
        let u = fresh_uuid();
        let pd = self.html_pulldown(u.as_str());
        let page = fresh_page(tpl, u.as_str(), addr, port, pd.as_str());
        (u, page)
    }

    /// The editor page for `/previous`: look `uuid` up (materializing from
    /// the disk read `disk` when needed) and render the stored content and
    /// label when found, a fresh blank page keyed by `uuid` otherwise.
    pub fn previous_page(
        &mut self,
        uuid: &str,
        disk: Option<String>,
        tpl: &Template,
        addr: &str,
        port: u16,
    ) -> (r: String)
        requires
            old(self).wf(),
        ensures
            final(self).wf(),
            final(self)@ == get_local_spec(old(self)@, uuid@, disk.deep_view()).0,
            r@ == match get_local_spec(old(self)@, uuid@, disk.deep_view()).1 {
                Some((c, l)) => stored_page_spec(
                    tpl@,
                    uuid@,
                    addr@,
                    port,
                    joined(pulldown_spec(final(self)@, uuid@), pd_sep()),
                    c,
                    l,
                ),
                None => fresh_page_spec(
                    tpl@,
                    uuid@,
                    addr@,
                    port,
                    joined(pulldown_spec(final(self)@, uuid@), pd_sep()),
                ),
            },
    {
        let (res, pd) = self.get_local_mindmap(uuid, disk);
        match res {
            Some((c, l)) => stored_page(tpl, uuid, addr, port, pd.as_str(), c.as_str(), l.as_ref()),
            None => fresh_page(tpl, uuid, addr, port, pd.as_str()),
        }
    }

    /// Apply a client update: normalize the submitted label, then
    /// overwrite or create the loaded entry of `uuid` and mark it dirty.
    pub fn apply_update(&mut self, uuid: String, content: String, label: Option<String>)
        requires
            old(self).wf(),
        ensures
            final(self).wf(),
            final(self)@ == update_spec(
                old(self)@,
                uuid@,
                content@,
                normalized_label(label.deep_view()),
            ),
    {
        let l = normalize_label(label);
        self.update_loaded_mindmap(uuid, content, l);
    }
}

} // verus!
