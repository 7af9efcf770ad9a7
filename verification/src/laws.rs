//! The laws of the registry and renderer, stated over their mathematical
//! models and proved once and for all.

use vstd::prelude::*;

use crate::registry::distinct_loaded;
use crate::registry::distinct_local;
use crate::registry::find_loaded;
use crate::registry::find_local;
use crate::registry::get_local_spec;
use crate::registry::has_uuid;
use crate::registry::html_content_spec;
use crate::registry::lemma_loaded_idx;
use crate::registry::lemma_local_idx;
use crate::registry::loaded_idx;
use crate::registry::local_idx;
use crate::registry::local_pd;
use crate::registry::needs_disk;
use crate::registry::pd_entries;
use crate::registry::pulldown_spec;
use crate::registry::registry_wf;
use crate::registry::save_plan_spec;
use crate::registry::scan_spec;
use crate::registry::update_spec;
use crate::registry::LoadedInfo;
use crate::registry::LocalInfo;
use crate::registry::RegistryView;
use crate::registry::SaveItemView;
use crate::render::bootstrap_of;
use crate::render::doc_before_label;
use crate::render::doc_pre;
use crate::render::doc_spec;
use crate::render::option_html;
use crate::render::TemplateView;
use crate::text::lemma_occurs_extend;
use crate::text::lemma_occurs_shift;
use crate::text::lemma_replaced_contains;
use crate::text::occurs;
use crate::text::occurs_at;

verus! {

/// The first loaded entry with id `k` stands where an entry with id `k`
/// stands with none before it.
pub proof fn lemma_loaded_idx_is(s: Seq<LoadedInfo>, k: Seq<char>, i: int)
    requires
        0 <= i < s.len(),
        s[i].uuid == k,
        forall|j: int| 0 <= j < i ==> s[j].uuid != k,
    ensures
        loaded_idx(s, k) == Some(i),
{
    lemma_loaded_idx(s, k);
    match loaded_idx(s, k) {
        Some(ix) => {
            if ix != i {
                assert(s[if ix < i {
                    ix
                } else {
                    i
                }].uuid != k);
                assert(false);
            }
        },
        None => {
            assert(s[i].uuid != k);
            assert(false);
        },
    }
}

/// After an update of `u`, the download document of `u` exists and is the
/// rendering of exactly the updated content and label.
pub proof fn lemma_update_then_download(
    m: RegistryView,
    u: Seq<char>,
    c: Seq<char>,
    l: Option<Seq<char>>,
    t: TemplateView,
)
    requires
        registry_wf(m),
    ensures
        html_content_spec(update_spec(m, u, c, l), u, t) == Some(doc_spec(t, u, c, l)),
{
    let e = LoadedInfo { uuid: u, content: c, label: l, dirty: true };
    lemma_loaded_idx(m.loaded, u);
    match loaded_idx(m.loaded, u) {
        Some(i) => {
            let s2 = m.loaded.update(i, e);
            assert(s2[i] == e);
            assert(forall|j: int| 0 <= j < i ==> s2[j] == m.loaded[j]);
            lemma_loaded_idx_is(s2, u, i);
            assert(find_loaded(s2, u) == Some(e));
        },
        None => {
            let s2 = m.loaded.push(e);
            let n = m.loaded.len() as int;
            assert(s2[n] == e);
            assert(forall|j: int| 0 <= j < n ==> s2[j] == m.loaded[j]);
            lemma_loaded_idx_is(s2, u, n);
            assert(find_loaded(s2, u) == Some(e));
        },
    }
}

/// In a document rendered without a label and with the default locale, the
/// stored content stands inside its `JSON.parse` bootstrap, provided the
/// bootstrap sentinel survived the earlier substitutions.
pub proof fn lemma_doc_carries_content(t: TemplateView, u: Seq<char>, c: Seq<char>)
    requires
        occurs(doc_pre(t, u), "MindElixir.new('root')"@),
        t.language == "en"@,
    ensures
        occurs(doc_spec(t, u, c, None), bootstrap_of(c)),
{
    reveal_strlit("MindElixir.new('root')");
    lemma_replaced_contains(doc_pre(t, u), "MindElixir.new('root')"@, bootstrap_of(c));
}

/// In a document rendered with a label, the label stands inside its
/// placeholder substitution, provided the placeholder sentinel survived
/// the earlier substitutions.
pub proof fn lemma_doc_carries_label(t: TemplateView, u: Seq<char>, c: Seq<char>, l: Seq<char>)
    requires
        occurs(doc_before_label(t, u, c), "placeholder='mindmap label'>"@),
    ensures
        occurs(doc_spec(t, u, c, Some(l)), "placeholder='"@ + l + "'>"@),
{
    reveal_strlit("placeholder='mindmap label'>");
    lemma_replaced_contains(
        doc_before_label(t, u, c),
        "placeholder='mindmap label'>"@,
        "placeholder='"@ + l + "'>"@,
    );
}

/// Looking a map up is idempotent: once a lookup of `u` has answered, a
/// second lookup answers the same from memory, leaves the registry as it
/// is, and needs no disk read; and a failed lookup repeated under the same
/// disk outcome fails the same way.
pub proof fn lemma_get_local_idempotent(
    m: RegistryView,
    u: Seq<char>,
    d1: Option<Seq<char>>,
    d2: Option<Seq<char>>,
)
    requires
        registry_wf(m),
    ensures
        ({
            let first = get_local_spec(m, u, d1);
            let second = get_local_spec(first.0, u, d2);
            &&& (first.1 is Some ==> second.0 == first.0 && second.1 == first.1 && !needs_disk(
                first.0,
                u,
            ))
            &&& (first.1 is None && d2 == d1 ==> second.0 == first.0 && second.1 == first.1)
        }),
{
    lemma_loaded_idx(m.loaded, u);
    match find_loaded(m.loaded, u) {
        Some(_) => {},
        None => {
            match find_local(m.local, u) {
                Some(le) => {
                    match d1 {
                        Some(c) => {
                            let e = LoadedInfo {
                                uuid: u,
                                content: c,
                                label: le.label,
                                dirty: false,
                            };
                            let s2 = m.loaded.push(e);
                            let n = m.loaded.len() as int;
                            assert(s2[n] == e);
                            assert(forall|j: int| 0 <= j < n ==> s2[j] == m.loaded[j]);
                            lemma_loaded_idx_is(s2, u, n);
                            assert(find_loaded(s2, u) == Some(e));
                        },
                        None => {},
                    }
                },
                None => {},
            }
        },
    }
}

/// The persistence plan of one update on an empty registry is exactly one
/// item, and a registry rebuilt from what that item puts on disk answers
/// the original content and label.
pub proof fn lemma_save_restart_roundtrip(
    u: Seq<char>,
    c: Seq<char>,
    l: Option<Seq<char>>,
    p: Seq<char>,
    t: TemplateView,
)
    ensures
        ({
            let m0 = RegistryView { loaded: Seq::empty(), local: Seq::empty() };
            let m1 = update_spec(m0, u, c, l);
            let rec = LocalInfo { uuid: u, json_path: p, label: l };
            let m2 = RegistryView {
                loaded: Seq::empty(),
                local: scan_spec(seq![rec], Seq::empty()),
            };
            &&& save_plan_spec(m1.loaded, t) =~= seq![
                SaveItemView { uuid: u, html: doc_spec(t, u, c, l), json: c, label: l },
            ]
            &&& get_local_spec(m2, u, Some(c)).1 == Some((c, l))
        }),
{
    let m0 = RegistryView { loaded: Seq::empty(), local: Seq::empty() };
    let e = LoadedInfo { uuid: u, content: c, label: l, dirty: true };
    assert(loaded_idx(m0.loaded, u) is None);
    let m1 = update_spec(m0, u, c, l);
    assert(m1.loaded =~= seq![e]);
    assert(m1.loaded.skip(1) =~= Seq::<LoadedInfo>::empty());
    assert(save_plan_spec(m1.loaded.skip(1), t) =~= Seq::<SaveItemView>::empty());
    assert(save_plan_spec(m1.loaded, t) =~= seq![
        SaveItemView { uuid: u, html: doc_spec(t, u, c, l), json: c, label: l },
    ]);
    let rec = LocalInfo { uuid: u, json_path: p, label: l };
    assert(local_idx(Seq::<LocalInfo>::empty(), u) is None);
    assert(seq![rec].skip(1) =~= Seq::<LocalInfo>::empty());
    let loc = scan_spec(seq![rec], Seq::empty());
    assert(scan_spec(seq![rec].skip(1), Seq::<LocalInfo>::empty().push(rec)) == Seq::<
        LocalInfo,
    >::empty().push(rec));
    assert(loc =~= Seq::<LocalInfo>::empty().push(rec));
    assert(loc =~= seq![rec]);
    let m2 = RegistryView { loaded: Seq::empty(), local: loc };
    assert(loaded_idx(m2.loaded, u) is None);
    assert(loc[0].uuid == u);
    assert(local_idx(loc, u) == Some(0int));
    assert(find_local(loc, u) == Some(rec));
    assert(get_local_spec(m2, u, Some(c)).1 == Some((c, l)));
}

/// A registry built from a scan that found a single map without a label
/// file holds that map with no label, and the picker of a blank page shows
/// exactly one option for it (besides the fresh blank id itself).
pub proof fn lemma_scan_single_no_label(u: Seq<char>, p: Seq<char>)
    requires
        u.len() > 0,
    ensures
        ({
            let rec = LocalInfo { uuid: u, json_path: p, label: None };
            let m = RegistryView {
                loaded: Seq::empty(),
                local: scan_spec(seq![rec], Seq::empty()),
            };
            &&& find_local(m.local, u) == Some(rec)
            &&& pd_entries(m, Seq::empty()) =~= seq![
                (u, None::<Seq<char>>),
                (Seq::<char>::empty(), None::<Seq<char>>),
            ]
        }),
{
    let rec = LocalInfo { uuid: u, json_path: p, label: None };
    assert(local_idx(Seq::<LocalInfo>::empty(), u) is None);
    assert(seq![rec].skip(1) =~= Seq::<LocalInfo>::empty());
    let loc = scan_spec(seq![rec], Seq::empty());
    assert(scan_spec(seq![rec].skip(1), Seq::<LocalInfo>::empty().push(rec)) == Seq::<
        LocalInfo,
    >::empty().push(rec));
    assert(loc =~= Seq::<LocalInfo>::empty().push(rec));
    assert(loc =~= seq![rec]);
    let m = RegistryView { loaded: Seq::empty(), local: loc };
    assert(loc[0].uuid == u);
    assert(local_idx(loc, u) == Some(0int));
    assert(find_local(loc, u) == Some(rec));
    let blank = Seq::<char>::empty();
    assert(loaded_idx(m.loaded, blank) is None);
    assert(loaded_idx(m.loaded, u) is None);
    assert(loc.skip(1) =~= Seq::<LocalInfo>::empty());
    assert(local_idx(loc.skip(1), blank) is None);
    assert(local_idx(loc, blank) is None);
    assert(!has_uuid(m, blank));
    assert(local_pd(loc.skip(1), m.loaded) =~= Seq::<(Seq<char>, Option<Seq<char>>)>::empty());
    assert(local_pd(loc, m.loaded) =~= seq![(u, None::<Seq<char>>)]);
    assert(Seq::new(m.loaded.len(), |i: int| (m.loaded[i].uuid, m.loaded[i].label)) =~= Seq::<
        (Seq<char>, Option<Seq<char>>),
    >::empty());
    assert(pd_entries(m, blank) =~= seq![
        (u, None::<Seq<char>>),
        (Seq::<char>::empty(), None::<Seq<char>>),
    ]);
}

proof fn lemma_local_pd_elems(local: Seq<LocalInfo>, loaded: Seq<LoadedInfo>)
    ensures
        forall|i: int|
            0 <= i < local_pd(local, loaded).len() ==> exists|j: int|
                0 <= j < local.len() && local[j].uuid == (#[trigger] local_pd(local, loaded)[i]).0
                    && local[j].label == local_pd(local, loaded)[i].1 && loaded_idx(
                    loaded,
                    local[j].uuid,
                ) is None,
    decreases local.len(),
{
    if local.len() == 0 {
        assert(local_pd(local, loaded) =~= Seq::<(Seq<char>, Option<Seq<char>>)>::empty());
    } else {
        lemma_local_pd_elems(local.skip(1), loaded);
        assert(forall|j: int| 1 <= j < local.len() ==> local[j] == local.skip(1)[j - 1]);
        let rest = local_pd(local.skip(1), loaded);
        let lp = local_pd(local, loaded);
        if loaded_idx(loaded, local[0].uuid) is None {
            let whole = seq![(local[0].uuid, local[0].label)] + rest;
            assert(lp == whole);
            assert(whole[0] == (local[0].uuid, local[0].label));
            assert(forall|i: int| 1 <= i < whole.len() ==> whole[i] == rest[i - 1]);
            assert forall|i: int| 0 <= i < lp.len() implies exists|j: int|
                0 <= j < local.len() && local[j].uuid == (#[trigger] lp[i]).0 && local[j].label
                    == lp[i].1 && loaded_idx(loaded, local[j].uuid) is None by {
                if i == 0 {
                    assert(local[0].uuid == lp[0].0 && local[0].label == lp[0].1 && loaded_idx(
                        loaded,
                        local[0].uuid,
                    ) is None);
                } else {
                    assert(lp[i] == rest[i - 1]);
                    let j1 = choose|j1: int|
                        0 <= j1 < local.skip(1).len() && local.skip(1)[j1].uuid == (#[trigger] rest[
                            i - 1
                        ]).0 && local.skip(1)[j1].label == rest[i - 1].1 && loaded_idx(
                            loaded,
                            local.skip(1)[j1].uuid,
                        ) is None;
                    assert(local[j1 + 1].uuid == lp[i].0 && local[j1 + 1].label == lp[i].1
                        && loaded_idx(loaded, local[j1 + 1].uuid) is None);
                }
            }
        } else {
            assert(lp == rest);
            assert forall|i: int| 0 <= i < lp.len() implies exists|j: int|
                0 <= j < local.len() && local[j].uuid == (#[trigger] lp[i]).0 && local[j].label
                    == lp[i].1 && loaded_idx(loaded, local[j].uuid) is None by {
                let j1 = choose|j1: int|
                    0 <= j1 < local.skip(1).len() && local.skip(1)[j1].uuid == (#[trigger] rest[
                        i
                    ]).0 && local.skip(1)[j1].label == rest[i].1 && loaded_idx(
                        loaded,
                        local.skip(1)[j1].uuid,
                    ) is None;
                assert(local[j1 + 1].uuid == lp[i].0 && local[j1 + 1].label == lp[i].1
                    && loaded_idx(loaded, local[j1 + 1].uuid) is None);
            }
        }
    }
}

proof fn lemma_local_pd_covers(local: Seq<LocalInfo>, loaded: Seq<LoadedInfo>)
    ensures
        forall|j: int|
            0 <= j < local.len() && loaded_idx(loaded, (#[trigger] local[j]).uuid) is None
                ==> exists|i: int|
                0 <= i < local_pd(local, loaded).len() && (#[trigger] local_pd(local, loaded)[i]).0
                    == local[j].uuid,
    decreases local.len(),
{
    if local.len() > 0 {
        lemma_local_pd_covers(local.skip(1), loaded);
        assert(forall|j: int| 1 <= j < local.len() ==> local[j] == local.skip(1)[j - 1]);
        let rest = local_pd(local.skip(1), loaded);
        let lp = local_pd(local, loaded);
        if loaded_idx(loaded, local[0].uuid) is None {
            let whole = seq![(local[0].uuid, local[0].label)] + rest;
            assert(lp == whole);
            assert(forall|i: int| 1 <= i < whole.len() ==> whole[i] == rest[i - 1]);
            assert forall|j: int|
                0 <= j < local.len() && loaded_idx(loaded, (#[trigger] local[j]).uuid) is None
                implies exists|i: int|
                0 <= i < lp.len() && (#[trigger] lp[i]).0 == local[j].uuid by {
                if j == 0 {
                    assert(lp[0].0 == local[0].uuid);
                } else {
                    let i1 = choose|i1: int|
                        0 <= i1 < rest.len() && (#[trigger] rest[i1]).0 == local.skip(1)[j - 1].uuid;
                    assert(lp[i1 + 1].0 == local[j].uuid);
                }
            }
        } else {
            assert(lp == rest);
            assert forall|j: int|
                0 <= j < local.len() && loaded_idx(loaded, (#[trigger] local[j]).uuid) is None
                implies exists|i: int|
                0 <= i < lp.len() && (#[trigger] lp[i]).0 == local[j].uuid by {
                assert(j != 0);
                let i1 = choose|i1: int|
                    0 <= i1 < rest.len() && (#[trigger] rest[i1]).0 == local.skip(1)[j - 1].uuid;
                assert(lp[i1].0 == local[j].uuid);
            }
        }
    }
}

proof fn lemma_local_pd_distinct(local: Seq<LocalInfo>, loaded: Seq<LoadedInfo>)
    requires
        distinct_local(local),
    ensures
        forall|i1: int, i2: int|
            0 <= i1 < i2 < local_pd(local, loaded).len() ==> (#[trigger] local_pd(
                local,
                loaded,
            )[i1]).0 != (#[trigger] local_pd(local, loaded)[i2]).0,
    decreases local.len(),
{
    if local.len() > 0 {
        assert(forall|j: int| 1 <= j < local.len() ==> local[j] == local.skip(1)[j - 1]);
        assert(distinct_local(local.skip(1)));
        lemma_local_pd_distinct(local.skip(1), loaded);
        lemma_local_pd_elems(local.skip(1), loaded);
        let rest = local_pd(local.skip(1), loaded);
        if loaded_idx(loaded, local[0].uuid) is None {
            let whole = seq![(local[0].uuid, local[0].label)] + rest;
            assert(local_pd(local, loaded) == whole);
            assert(forall|i: int| 1 <= i < whole.len() ==> whole[i] == rest[i - 1]);
            assert forall|i1: int, i2: int|
                0 <= i1 < i2 < whole.len() implies (#[trigger] whole[i1]).0
                != (#[trigger] whole[i2]).0 by {
                if i1 == 0 {
                    let k2 = (#[trigger] rest[i2 - 1]).0;
                    let j2 = choose|j2: int|
                        0 <= j2 < local.skip(1).len() && local.skip(1)[j2].uuid == k2
                            && local.skip(1)[j2].label == rest[i2 - 1].1 && loaded_idx(
                            loaded,
                            local.skip(1)[j2].uuid,
                        ) is None;
                    assert(local[0].uuid != local[j2 + 1].uuid);
                } else {
                    assert(rest[i1 - 1].0 != rest[i2 - 1].0);
                }
            }
        }
    }
}

/// The picker of `u` lists the known ids and `u` exactly once each: every
/// option renders one entry; `u` has an entry; every loaded or on-disk id
/// has an entry; every entry is a known id or `u`; and no id repeats.
pub proof fn lemma_pulldown_complete(m: RegistryView, u: Seq<char>)
    requires
        registry_wf(m),
    ensures
        pulldown_spec(m, u).len() == pd_entries(m, u).len(),
        forall|i: int|
            0 <= i < pd_entries(m, u).len() ==> #[trigger] pulldown_spec(m, u)[i] == option_html(
                pd_entries(m, u)[i].0,
                pd_entries(m, u)[i].1,
                pd_entries(m, u)[i].0 == u,
            ),
        exists|i: int| 0 <= i < pd_entries(m, u).len() && (#[trigger] pd_entries(m, u)[i]).0 == u,
        forall|k: Seq<char>|
            #[trigger] has_uuid(m, k) ==> exists|i: int|
                0 <= i < pd_entries(m, u).len() && (#[trigger] pd_entries(m, u)[i]).0 == k,
        forall|i: int|
            0 <= i < pd_entries(m, u).len() ==> has_uuid(m, (#[trigger] pd_entries(m, u)[i]).0) || (
            pd_entries(m, u)[i]).0 == u,
        forall|i1: int, i2: int|
            0 <= i1 < i2 < pd_entries(m, u).len() ==> (#[trigger] pd_entries(m, u)[i1]).0 != (
            #[trigger] pd_entries(m, u)[i2]).0,
{
    let a = Seq::new(m.loaded.len(), |i: int| (m.loaded[i].uuid, m.loaded[i].label));
    let b = local_pd(m.local, m.loaded);
    let c = if has_uuid(m, u) {
        Seq::<(Seq<char>, Option<Seq<char>>)>::empty()
    } else {
        seq![(u, None::<Seq<char>>)]
    };
    let es = pd_entries(m, u);
    assert(es == a + b + c);
    lemma_local_pd_elems(m.local, m.loaded);
    lemma_local_pd_covers(m.local, m.loaded);
    lemma_local_pd_distinct(m.local, m.loaded);
    lemma_loaded_idx(m.loaded, u);
    lemma_local_idx(m.local, u);
    // an entry for u exists
    if loaded_idx(m.loaded, u) is Some {
        let i0 = loaded_idx(m.loaded, u)->Some_0;
        assert(es[i0].0 == u);
    } else if local_idx(m.local, u) is Some {
        let j0 = local_idx(m.local, u)->Some_0;
        assert(m.local[j0].uuid == u && loaded_idx(m.loaded, m.local[j0].uuid) is None);
        let i1 = choose|i1: int| 0 <= i1 < b.len() && (#[trigger] b[i1]).0 == m.local[j0].uuid;
        assert(es[a.len() + i1].0 == u);
    } else {
        assert(es[es.len() - 1].0 == u);
    }
    // every known id has an entry
    assert forall|k: Seq<char>| #[trigger] has_uuid(m, k) implies exists|i: int|
        0 <= i < es.len() && (#[trigger] es[i]).0 == k by {
        lemma_loaded_idx(m.loaded, k);
        lemma_local_idx(m.local, k);
        if loaded_idx(m.loaded, k) is Some {
            let i0 = loaded_idx(m.loaded, k)->Some_0;
            assert(es[i0].0 == k);
        } else {
            let j0 = local_idx(m.local, k)->Some_0;
            assert(m.local[j0].uuid == k && loaded_idx(m.loaded, m.local[j0].uuid) is None);
            let i1 = choose|i1: int| 0 <= i1 < b.len() && (#[trigger] b[i1]).0 == m.local[j0].uuid;
            assert(es[a.len() + i1].0 == k);
        }
    }
    // every entry names a known id or u
    assert forall|i: int| 0 <= i < es.len() implies has_uuid(m, (#[trigger] es[i]).0) || (
    es[i]).0 == u by {
        if i < a.len() {
            assert(es[i] == a[i]);
            lemma_loaded_idx_is(m.loaded, m.loaded[i].uuid, i);
        } else if i < a.len() + b.len() {
            assert(es[i] == b[i - a.len()]);
            let j = choose|j: int|
                0 <= j < m.local.len() && m.local[j].uuid == (#[trigger] b[i - a.len()]).0
                    && m.local[j].label == b[i - a.len()].1 && loaded_idx(
                    m.loaded,
                    m.local[j].uuid,
                ) is None;
            lemma_local_idx(m.local, m.local[j].uuid);
            if local_idx(m.local, m.local[j].uuid) is None {
                assert(m.local[j].uuid != m.local[j].uuid);
            }
        } else {
            assert(es[i] == (u, None::<Seq<char>>));
        }
    }
    // no id repeats
    assert forall|i1: int, i2: int| 0 <= i1 < i2 < es.len() implies (#[trigger] es[i1]).0 != (
    #[trigger] es[i2]).0 by {
        if i2 < a.len() {
            assert(es[i1] == a[i1] && es[i2] == a[i2]);
            assert(m.loaded[i1].uuid != m.loaded[i2].uuid);
        } else if i2 < a.len() + b.len() {
            let j2 = choose|j: int|
                0 <= j < m.local.len() && m.local[j].uuid == (#[trigger] b[i2 - a.len()]).0
                    && m.local[j].label == b[i2 - a.len()].1 && loaded_idx(
                    m.loaded,
                    m.local[j].uuid,
                ) is None;
            if i1 < a.len() {
                assert(es[i1] == a[i1]);
                if es[i1].0 == es[i2].0 {
                    lemma_loaded_idx_is(m.loaded, m.loaded[i1].uuid, i1);
                    assert(loaded_idx(m.loaded, m.local[j2].uuid) is Some);
                    assert(false);
                }
            } else {
                assert(es[i1] == b[i1 - a.len()] && es[i2] == b[i2 - a.len()]);
                assert(b[i1 - a.len()].0 != b[i2 - a.len()].0);
            }
        } else {
            // i2 points at the fresh entry, present only when u is unknown
            assert(!has_uuid(m, u));
            assert(es[i2] == (u, None::<Seq<char>>));
            if es[i1].0 == u {
                if i1 < a.len() {
                    lemma_loaded_idx_is(m.loaded, m.loaded[i1].uuid, i1);
                    assert(loaded_idx(m.loaded, u) is Some);
                } else {
                    let j1 = choose|j: int|
                        0 <= j < m.local.len() && m.local[j].uuid == (#[trigger] b[i1 - a.len()]).0
                            && m.local[j].label == b[i1 - a.len()].1 && loaded_idx(
                            m.loaded,
                            m.local[j].uuid,
                        ) is None;
                    lemma_local_idx(m.local, u);
                    if local_idx(m.local, u) is None {
                        assert(m.local[j1].uuid != u);
                    }
                }
                assert(false);
            }
        }
    }
}

/// A picker option rendered as selected carries the ` selected` marker.
pub proof fn lemma_option_selected(k: Seq<char>, label: Option<Seq<char>>)
    ensures
        occurs(option_html(k, label, true), " selected"@),
{
    let sel = " selected"@;
    assert(sel.subrange(0, sel.len() as int) =~= sel);
    assert(occurs_at(sel, sel, 0));
    assert(occurs(sel, sel));
    let head = "<option value='"@ + k + "'"@;
    lemma_occurs_shift(head, sel, sel);
    lemma_occurs_extend(head + sel, ">"@, sel);
    lemma_occurs_extend(head + sel + ">"@, k, sel);
    match label {
        Some(l) => {
            lemma_occurs_extend(head + sel + ">"@ + k, "("@, sel);
            lemma_occurs_extend(head + sel + ">"@ + k + "("@, l, sel);
            lemma_occurs_extend(head + sel + ">"@ + k + "("@ + l, ")</option>"@, sel);
        },
        None => {
            lemma_occurs_extend(head + sel + ">"@ + k, "</option>"@, sel);
        },
    }
}

/// The picker of `u` shows an option that carries the ` selected` marker.
pub proof fn lemma_pulldown_selected_marker(m: RegistryView, u: Seq<char>)
    requires
        registry_wf(m),
    ensures
        exists|i: int|
            0 <= i < pulldown_spec(m, u).len() && occurs(
                #[trigger] pulldown_spec(m, u)[i],
                " selected"@,
            ),
{
    lemma_pulldown_complete(m, u);
    let i = choose|i: int| 0 <= i < pd_entries(m, u).len() && (#[trigger] pd_entries(m, u)[i]).0
        == u;
    lemma_option_selected(u, pd_entries(m, u)[i].1);
    assert(pulldown_spec(m, u)[i] == option_html(u, pd_entries(m, u)[i].1, true));
    assert(occurs(pulldown_spec(m, u)[i], " selected"@));
}

/// After an update of `u` under the default locale and no label, the
/// download document of `u` carries the stored content inside its
/// `JSON.parse` bootstrap, provided the bootstrap sentinel survived the
/// earlier substitutions of the template.
pub proof fn lemma_update_then_download_carries(
    m: RegistryView,
    u: Seq<char>,
    c: Seq<char>,
    t: TemplateView,
)
    requires
        registry_wf(m),
        occurs(doc_pre(t, u), "MindElixir.new('root')"@),
        t.language == "en"@,
    ensures
        html_content_spec(update_spec(m, u, c, None), u, t) matches Some(h) && occurs(
            h,
            bootstrap_of(c),
        ),
{
    lemma_update_then_download(m, u, c, None, t);
    lemma_doc_carries_content(t, u, c);
}

/// The persistence plan item of one loaded entry.
pub open spec fn save_item_of(e: LoadedInfo, t: TemplateView) -> SaveItemView {
    SaveItemView {
        uuid: e.uuid,
        html: doc_spec(t, e.uuid, e.content, e.label),
        json: e.content,
        label: e.label,
    }
}

#[verifier::rlimit(50)]
proof fn lemma_save_plan_membership(loaded: Seq<LoadedInfo>, t: TemplateView)
    ensures
        forall|i: int|
            0 <= i < save_plan_spec(loaded, t).len() ==> exists|j: int|
                0 <= j < loaded.len() && loaded[j].dirty && #[trigger] save_plan_spec(loaded, t)[i]
                    == save_item_of(loaded[j], t),
        forall|j: int|
            0 <= j < loaded.len() && (#[trigger] loaded[j]).dirty ==> exists|i: int|
                0 <= i < save_plan_spec(loaded, t).len() && #[trigger] save_plan_spec(loaded, t)[i]
                    == save_item_of(loaded[j], t),
    decreases loaded.len(),
{
    if loaded.len() > 0 {
        lemma_save_plan_membership(loaded.skip(1), t);
        assert(forall|j: int| 1 <= j < loaded.len() ==> loaded[j] == loaded.skip(1)[j - 1]);
        let rest = save_plan_spec(loaded.skip(1), t);
        if loaded[0].dirty {
            let whole = seq![save_item_of(loaded[0], t)] + rest;
            assert(save_plan_spec(loaded, t) == whole);
            assert(forall|i: int| 1 <= i < whole.len() ==> whole[i] == rest[i - 1]);
            assert forall|i: int| 0 <= i < whole.len() implies exists|j: int|
                0 <= j < loaded.len() && loaded[j].dirty && #[trigger] whole[i] == save_item_of(
                    loaded[j],
                    t,
                ) by {
                if i == 0 {
                    assert(whole[0] == save_item_of(loaded[0], t) && loaded[0].dirty);
                } else {
                    let j1 = choose|j1: int|
                        0 <= j1 < loaded.skip(1).len() && loaded.skip(1)[j1].dirty
                            && #[trigger] rest[i - 1] == save_item_of(loaded.skip(1)[j1], t);
                    assert(loaded[j1 + 1].dirty && whole[i] == save_item_of(loaded[j1 + 1], t));
                }
            }
            assert forall|j: int|
                0 <= j < loaded.len() && (#[trigger] loaded[j]).dirty implies exists|i: int|
                0 <= i < whole.len() && #[trigger] whole[i] == save_item_of(loaded[j], t) by {
                if j == 0 {
                    assert(whole[0] == save_item_of(loaded[0], t));
                } else {
                    let i1 = choose|i1: int|
                        0 <= i1 < rest.len() && #[trigger] rest[i1] == save_item_of(
                            loaded.skip(1)[j - 1],
                            t,
                        );
                    assert(whole[i1 + 1] == save_item_of(loaded[j], t));
                }
            }
        } else {
            assert(save_plan_spec(loaded, t) == rest);
            assert forall|i: int| 0 <= i < rest.len() implies exists|j: int|
                0 <= j < loaded.len() && loaded[j].dirty && #[trigger] rest[i] == save_item_of(
                    loaded[j],
                    t,
                ) by {
                let j1 = choose|j1: int|
                    0 <= j1 < loaded.skip(1).len() && loaded.skip(1)[j1].dirty
                        && #[trigger] rest[i] == save_item_of(loaded.skip(1)[j1], t);
                assert(loaded[j1 + 1].dirty && rest[i] == save_item_of(loaded[j1 + 1], t));
            }
            assert forall|j: int|
                0 <= j < loaded.len() && (#[trigger] loaded[j]).dirty implies exists|i: int|
                0 <= i < rest.len() && #[trigger] rest[i] == save_item_of(loaded[j], t) by {
                assert(j != 0);
                let i1 = choose|i1: int|
                    0 <= i1 < rest.len() && #[trigger] rest[i1] == save_item_of(
                        loaded.skip(1)[j - 1],
                        t,
                    );
                assert(rest[i1] == save_item_of(loaded[j], t));
            }
        }
    }
}

/// The persistence plan holds exactly the dirty entries: every item is a
/// dirty entry's files, every dirty entry has its item, and an id that is
/// loaded clean appears in no item at all.
pub proof fn lemma_save_plan_exact(loaded: Seq<LoadedInfo>, t: TemplateView)
    requires
        distinct_loaded(loaded),
    ensures
        forall|i: int|
            0 <= i < save_plan_spec(loaded, t).len() ==> exists|j: int|
                0 <= j < loaded.len() && loaded[j].dirty && #[trigger] save_plan_spec(loaded, t)[i]
                    == save_item_of(loaded[j], t),
        forall|j: int|
            0 <= j < loaded.len() && (#[trigger] loaded[j]).dirty ==> exists|i: int|
                0 <= i < save_plan_spec(loaded, t).len() && #[trigger] save_plan_spec(loaded, t)[i]
                    == save_item_of(loaded[j], t),
        forall|j: int, i: int|
            0 <= j < loaded.len() && !(#[trigger] loaded[j]).dirty && 0 <= i < save_plan_spec(
                loaded,
                t,
            ).len() ==> (#[trigger] save_plan_spec(loaded, t)[i]).uuid != loaded[j].uuid,
{
    lemma_save_plan_membership(loaded, t);
    let plan = save_plan_spec(loaded, t);
    assert forall|j: int, i: int|
        0 <= j < loaded.len() && !(#[trigger] loaded[j]).dirty && 0 <= i
            < plan.len() implies (#[trigger] plan[i]).uuid != loaded[j].uuid by {
        let j1 = choose|j1: int|
            0 <= j1 < loaded.len() && loaded[j1].dirty && #[trigger] plan[i] == save_item_of(
                loaded[j1],
                t,
            );
        if plan[i].uuid == loaded[j].uuid {
            assert(loaded[j1].uuid == loaded[j].uuid);
            assert(j1 != j);
            assert(loaded[if j1 < j {
                j1
            } else {
                j
            }].uuid != loaded[if j1 < j {
                j
            } else {
                j1
            }].uuid);
            assert(false);
        }
    }
}

} // verus!
