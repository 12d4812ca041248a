//! Reconciling a re-read configuration with the running one.
//!
//! Each wakeword of the new configuration is classified against the
//! running one by name: not there before (added), there with a different
//! model path (model changed, reloaded), or there with the same model
//! (updated in place). Running wakewords whose names are gone are removed.

use vstd::prelude::*;

use crate::config::Wakeword;
use crate::detector::Detector;
use crate::names::{filter_match, names_view};
use crate::paths::{components, paths_equal};

verus! {

/// How a wakeword of the new configuration relates to the running one.
pub ghost enum Change {
    Added,
    ModelChanged,
    Updated,
}

/// Index of the last running wakeword named `name` (`-1` if none); the
/// last one wins, as when the running set is collected into a map.
pub open spec fn last_named<Th>(old: Seq<Wakeword<Th>>, name: Seq<char>, end: int) -> int
    decreases end,
{
    if end <= 0 {
        -1
    } else if old[end - 1].name@ == name {
        end - 1
    } else {
        last_named(old, name, end - 1)
    }
}

pub open spec fn change_of<Th>(old: Seq<Wakeword<Th>>, w: Wakeword<Th>) -> Change {
    let l = last_named(old, w.name@, old.len() as int);
    if l < 0 {
        Change::Added
    } else if components(old[l].model@) != components(w.model@) {
        Change::ModelChanged
    } else {
        Change::Updated
    }
}

/// Some wakeword of `new` is named `name`.
pub open spec fn has_name<Th>(ws: Seq<Wakeword<Th>>, name: Seq<char>) -> bool {
    exists|i: int| 0 <= i < ws.len() && (#[trigger] ws[i]).name@ == name
}

/// `idx` lists, in increasing order and without repetition, exactly the
/// indices below `n` that satisfy `p`.
pub open spec fn lists_exactly(idx: Seq<usize>, n: int, p: spec_fn(int) -> bool) -> bool {
    &&& forall|k: int| 0 <= k < idx.len() ==> idx[k] < n && p(#[trigger] idx[k] as int)
    &&& forall|k: int, l: int| 0 <= k < l < idx.len() ==> idx[k] < idx[l]
    &&& forall|i: int| 0 <= i < n && #[trigger] p(i) ==> idx.contains(i as usize)
}

pub open spec fn change_is<Th>(old: Seq<Wakeword<Th>>, new: Seq<Wakeword<Th>>, c: Change) -> spec_fn(int) -> bool {
    |i: int| change_of(old, new[i]) == c
}

pub open spec fn name_dropped<Th>(old: Seq<Wakeword<Th>>, new: Seq<Wakeword<Th>>) -> spec_fn(int) -> bool {
    |j: int| !has_name(new, old[j].name@)
}

/// The change set between a running and a re-read configuration. The
/// first three lists hold indices into the new wakewords, `removed` holds
/// indices into the running ones.
#[derive(Debug)]
pub struct ReloadPlan {
    pub added: Vec<usize>,
    pub model_changed: Vec<usize>,
    pub updated: Vec<usize>,
    pub removed: Vec<usize>,
}

fn last_named_exec<Th>(old: &Vec<Wakeword<Th>>, name: &String) -> (r: Option<usize>)
    ensures
        match r {
            Some(l) => last_named(old@, name@, old@.len() as int) == l,
            None => last_named(old@, name@, old@.len() as int) == -1,
        },
{
    let mut k = old.len();
    while k > 0
        invariant
            k <= old@.len(),
            last_named(old@, name@, old@.len() as int) == last_named(old@, name@, k as int),
        decreases k,
    {
        if old[k - 1].name == *name {
            return Some(k - 1);
        }
        k -= 1;
    }
    None
}

fn has_name_exec<Th>(ws: &Vec<Wakeword<Th>>, name: &String) -> (r: bool)
    ensures
        r == has_name(ws@, name@),
{
    let mut i: usize = 0;
    while i < ws.len()
        invariant
            i <= ws@.len(),
            forall|j: int| 0 <= j < i ==> ws@[j].name@ != name@,
        decreases ws@.len() - i,
    {
        if ws[i].name == *name {
            assert(ws@[i as int].name@ == name@);
            return true;
        }
        i += 1;
    }
    false
}

proof fn lemma_last_named_bounds<Th>(old: Seq<Wakeword<Th>>, name: Seq<char>, end: int)
    requires
        0 <= end <= old.len(),
    ensures
        -1 <= last_named(old, name, end) < end,
        last_named(old, name, end) >= 0 ==> old[last_named(old, name, end)].name@ == name,
    decreases end,
{
    if end > 0 && old[end - 1].name@ != name {
        lemma_last_named_bounds(old, name, end - 1);
    }
}

/// `plan` is the change set between `old` and `new`.
pub open spec fn plan_of<Th>(plan: ReloadPlan, old: Seq<Wakeword<Th>>, new: Seq<Wakeword<Th>>) -> bool {
    &&& lists_exactly(plan.added@, new.len() as int, change_is(old, new, Change::Added))
    &&& lists_exactly(plan.model_changed@, new.len() as int, change_is(old, new, Change::ModelChanged))
    &&& lists_exactly(plan.updated@, new.len() as int, change_is(old, new, Change::Updated))
    &&& lists_exactly(plan.removed@, old.len() as int, name_dropped(old, new))
}

/// Classify every wakeword of `new` against `old`.
pub fn build_reload_plan<Th>(old: &Vec<Wakeword<Th>>, new: &Vec<Wakeword<Th>>) -> (plan: ReloadPlan)
    ensures
        plan_of(plan, old@, new@),
{
    let mut added: Vec<usize> = Vec::new();
    let mut model_changed: Vec<usize> = Vec::new();
    let mut updated: Vec<usize> = Vec::new();
    let mut i: usize = 0;
    while i < new.len()
        invariant
            i <= new@.len(),
            lists_exactly(added@, i as int, change_is(old@, new@, Change::Added)),
            lists_exactly(model_changed@, i as int, change_is(old@, new@, Change::ModelChanged)),
            lists_exactly(updated@, i as int, change_is(old@, new@, Change::Updated)),
        decreases new@.len() - i,
    {
        let w = &new[i];
        let ghost before_a = added@;
        let ghost before_m = model_changed@;
        let ghost before_u = updated@;
        let ghost ch = change_of(old@, new@[i as int]);
        assert(*w == new@[i as int]);
        match last_named_exec(old, &w.name) {
            None => {
                assert(ch == Change::Added);
                added.push(i);
            },
            Some(l) => {
                proof {
                    lemma_last_named_bounds(old@, w.name@, old@.len() as int);
                }
                if paths_equal(old[l].model.as_str(), w.model.as_str()) {
                    assert(ch == Change::Updated);
                    updated.push(i);
                } else {
                    assert(ch == Change::ModelChanged);
                    model_changed.push(i);
                }
            },
        }
        assert(change_is(old@, new@, Change::Added)(i as int) ==> added@ == before_a.push(i));
        assert(!change_is(old@, new@, Change::Added)(i as int) ==> added@ == before_a);
        assert(change_is(old@, new@, Change::ModelChanged)(i as int) ==> model_changed@ == before_m.push(i));
        assert(!change_is(old@, new@, Change::ModelChanged)(i as int) ==> model_changed@ == before_m);
        assert(change_is(old@, new@, Change::Updated)(i as int) ==> updated@ == before_u.push(i));
        assert(!change_is(old@, new@, Change::Updated)(i as int) ==> updated@ == before_u);
        proof {
            assert forall|j: int| 0 <= j < i + 1 && #[trigger] change_is(old@, new@, Change::Added)(j) implies added@.contains(j as usize) by {
                if j < i {
                    let k = choose|k: int| 0 <= k < before_a.len() && before_a[k] == j as usize;
                    assert(added@[k] == j as usize);
                } else {
                    assert(added@[added@.len() - 1] == i);
                }
            }
            assert forall|j: int| 0 <= j < i + 1 && #[trigger] change_is(old@, new@, Change::ModelChanged)(j) implies model_changed@.contains(j as usize) by {
                if j < i {
                    let k = choose|k: int| 0 <= k < before_m.len() && before_m[k] == j as usize;
                    assert(model_changed@[k] == j as usize);
                } else {
                    assert(model_changed@[model_changed@.len() - 1] == i);
                }
            }
            assert forall|j: int| 0 <= j < i + 1 && #[trigger] change_is(old@, new@, Change::Updated)(j) implies updated@.contains(j as usize) by {
                if j < i {
                    let k = choose|k: int| 0 <= k < before_u.len() && before_u[k] == j as usize;
                    assert(updated@[k] == j as usize);
                } else {
                    assert(updated@[updated@.len() - 1] == i);
                }
            }
        }
        i += 1;
    }
    let mut removed: Vec<usize> = Vec::new();
    let mut j: usize = 0;
    while j < old.len()
        invariant
            j <= old@.len(),
            lists_exactly(removed@, j as int, name_dropped(old@, new@)),
        decreases old@.len() - j,
    {
        let ghost before_r = removed@;
        if !has_name_exec(new, &old[j].name) {
            removed.push(j);
        }
        assert(name_dropped(old@, new@)(j as int) ==> removed@ == before_r.push(j));
        assert(!name_dropped(old@, new@)(j as int) ==> removed@ == before_r);
        proof {
            assert forall|x: int| 0 <= x < j + 1 && #[trigger] name_dropped(old@, new@)(x) implies removed@.contains(x as usize) by {
                if x < j {
                    let k = choose|k: int| 0 <= k < before_r.len() && before_r[k] == x as usize;
                    assert(removed@[k] == x as usize);
                } else {
                    assert(removed@[removed@.len() - 1] == j);
                }
            }
        }
        j += 1;
    }
    ReloadPlan { added, model_changed, updated, removed }
}

/// Every wakeword of the re-read configuration falls in exactly one of
/// the three classes (added, model changed, updated).
pub proof fn law_plan_partitions_new<Th>(old: Seq<Wakeword<Th>>, new: Seq<Wakeword<Th>>, i: int)
    requires
        0 <= i < new.len(),
    ensures
        change_of(old, new[i]) == Change::Added
            || change_of(old, new[i]) == Change::ModelChanged
            || change_of(old, new[i]) == Change::Updated,
        change_of(old, new[i]) == Change::Added <==> !has_name(old, new[i].name@),
{
    lemma_last_named_bounds(old, new[i].name@, old.len() as int);
    if has_name(old, new[i].name@) {
        let j = choose|j: int| 0 <= j < old.len() && (#[trigger] old[j]).name@ == new[i].name@;
        lemma_last_named_found(old, new[i].name@, old.len() as int, j);
    }
}

proof fn lemma_last_named_found<Th>(old: Seq<Wakeword<Th>>, name: Seq<char>, end: int, j: int)
    requires
        0 <= j < end <= old.len(),
        old[j].name@ == name,
    ensures
        last_named(old, name, end) >= j,
    decreases end,
{
    if old[end - 1].name@ != name {
        lemma_last_named_found(old, name, end - 1, j);
    }
}

/// Things that carry a name.
pub trait HasName {
    spec fn name_view(&self) -> Seq<char>;

    fn name_str(&self) -> (r: &str)
        ensures
            r@ == self.name_view(),
    ;
}

impl<Th> HasName for Detector<Th> {
    open spec fn name_view(&self) -> Seq<char> {
        self.name_spec()@
    }

    fn name_str(&self) -> (r: &str) {
        self.name().as_str()
    }
}

/// A value tagged with the wakeword it belongs to (a loaded classifier).
#[derive(Debug)]
pub struct Named<C> {
    pub name: String,
    pub item: C,
}

impl<C> HasName for Named<C> {
    open spec fn name_view(&self) -> Seq<char> {
        self.name@
    }

    fn name_str(&self) -> (r: &str) {
        self.name.as_str()
    }
}

/// Keeps the items whose name is not among `names`.
pub open spec fn keep_unnamed<T: HasName>(names: Seq<Seq<char>>) -> spec_fn(T) -> bool {
    |x: T| !names.contains(x.name_view())
}

/// Index of the first item named `n`, `-1` if none.
pub open spec fn first_named<T: HasName>(s: Seq<T>, n: Seq<char>) -> int
    decreases s.len(),
{
    if s.len() == 0 {
        -1
    } else if s[0].name_view() == n {
        0
    } else {
        let r = first_named(s.drop_first(), n);
        if r < 0 { -1 } else { r + 1 }
    }
}

pub proof fn lemma_first_named<T: HasName>(s: Seq<T>, n: Seq<char>)
    ensures
        -1 <= first_named(s, n) < s.len(),
        first_named(s, n) >= 0 ==> s[first_named(s, n)].name_view() == n,
        forall|i: int| 0 <= i < s.len() && (first_named(s, n) < 0 || i < first_named(s, n))
            ==> #[trigger] s[i].name_view() != n,
    decreases s.len(),
{
    if s.len() > 0 && s[0].name_view() != n {
        lemma_first_named(s.drop_first(), n);
        assert forall|i: int| 0 <= i < s.len() && (first_named(s, n) < 0 || i < first_named(s, n))
            implies #[trigger] s[i].name_view() != n by {
            if i > 0 {
                assert(s[i] == s.drop_first()[i - 1]);
            }
        }
    }
}

/// Position of the first item named `name`.
pub fn position_named<T: HasName>(v: &Vec<T>, name: &str) -> (r: Option<usize>)
    ensures
        match r {
            Some(k) => first_named(v@, name@) == k,
            None => first_named(v@, name@) == -1,
        },
{
    let mut i: usize = 0;
    proof {
        lemma_first_named(v@, name@);
    }
    while i < v.len()
        invariant
            i <= v@.len(),
            forall|k: int| 0 <= k < i ==> #[trigger] v@[k].name_view() != name@,
        decreases v@.len() - i,
    {
        if crate::text::str_eq(v[i].name_str(), name) {
            proof {
                lemma_first_named(v@, name@);
                let f = first_named(v@, name@);
                if f < 0 || f > i {
                    assert(v@[i as int].name_view() != name@);
                }
            }
            return Some(i);
        }
        i += 1;
    }
    proof {
        lemma_first_named(v@, name@);
        let f = first_named(v@, name@);
        if f >= 0 {
            assert(v@[f].name_view() == name@);
        }
    }
    None
}

/// Drop every item whose name is among `names`, keeping the order of the rest.
pub fn retain_unnamed<T: HasName>(v: &mut Vec<T>, names: &Vec<String>)
    ensures
        final(v)@ == old(v)@.filter(keep_unnamed::<T>(names_view(names@))),
{
    let ghost orig = v@;
    let ghost p = keep_unnamed::<T>(names_view(names@));
    let ghost n = v@.len();
    let mut kept: Vec<T> = Vec::new();
    let ghost mut i: int = 0;
    assert(orig.subrange(0, 0).filter(p) =~= Seq::<T>::empty()) by {
        reveal(Seq::filter);
    }
    assert(orig.subrange(0, n as int) =~= orig);
    while v.len() > 0
        invariant
            0 <= i <= n,
            n == orig.len(),
            v@ == orig.subrange(i, n as int),
            kept@ == orig.subrange(0, i).filter(p),
            p == keep_unnamed::<T>(names_view(names@)),
        decreases v@.len(),
    {
        let x = v.remove(0);
        proof {
            assert(x == orig[i]);
            assert(orig.subrange(0, i + 1).drop_last() =~= orig.subrange(0, i));
            assert(orig.subrange(0, i + 1).last() == orig[i]);
            reveal(Seq::filter);
        }
        let named = filter_match(Some(names), x.name_str());
        if !named {
            kept.push(x);
        }
        proof {
            assert(v@ =~= orig.subrange(i + 1, n as int));
            i = i + 1;
        }
    }
    *v = kept;
}

/// State of the reload of changed and added wakewords.
pub struct ReloadState<Th, C> {
    pub detectors: Seq<Detector<Th>>,
    pub classifiers: Seq<Named<C>>,
    pub loaded: Seq<Named<C>>,
}

/// Give the first detector named like `w` the settings of `w`.
pub open spec fn retune_first<Th>(ds: Seq<Detector<Th>>, w: Wakeword<Th>) -> Seq<Detector<Th>> {
    let k = first_named(ds, w.name@);
    if k < 0 {
        ds
    } else {
        ds.update(k, ds[k].retuned(w.threshold, w.cooldown_ms, w.enabled))
    }
}

/// [`retune_first`] for each of `ws` in order.
pub open spec fn retune_all<Th>(ds: Seq<Detector<Th>>, ws: Seq<Wakeword<Th>>) -> Seq<Detector<Th>>
    decreases ws.len(),
{
    if ws.len() == 0 {
        ds
    } else {
        retune_all(retune_first(ds, ws[0]), ws.drop_first())
    }
}

/// Swap in the classifier loaded for `w` (the first loaded one with its
/// name) and a fresh detector for it, replacing any of the same name;
/// without a loaded classifier `w` is skipped.
pub open spec fn reload_one<Th, C>(st: ReloadState<Th, C>, w: Wakeword<Th>) -> ReloadState<Th, C> {
    let k = first_named(st.loaded, w.name@);
    if k < 0 {
        st
    } else {
        ReloadState {
            detectors: st.detectors.filter(keep_unnamed(seq![w.name@])).push(
                Detector::fresh(w.name, w.threshold, w.cooldown_ms, w.enabled),
            ),
            classifiers: st.classifiers.filter(keep_unnamed(seq![w.name@])).push(st.loaded[k]),
            loaded: st.loaded.remove(k),
        }
    }
}

/// [`reload_one`] for each of `ws` in order.
pub open spec fn reload_all<Th, C>(st: ReloadState<Th, C>, ws: Seq<Wakeword<Th>>) -> ReloadState<Th, C>
    decreases ws.len(),
{
    if ws.len() == 0 {
        st
    } else {
        reload_all(reload_one(st, ws[0]), ws.drop_first())
    }
}

/// Every index of `idx` is below `n`.
pub open spec fn indices_below(idx: Seq<usize>, n: int) -> bool {
    forall|k: int| 0 <= k < idx.len() ==> #[trigger] idx[k] < n
}

/// The plan's indices are valid for `old` and `new`.
pub open spec fn plan_fits(plan: ReloadPlan, old_len: int, new_len: int) -> bool {
    &&& indices_below(plan.added@, new_len)
    &&& indices_below(plan.model_changed@, new_len)
    &&& indices_below(plan.updated@, new_len)
    &&& indices_below(plan.removed@, old_len)
}

pub open spec fn pick<Th>(new: Seq<Wakeword<Th>>, idx: Seq<usize>) -> Seq<Wakeword<Th>> {
    idx.map_values(|i: usize| new[i as int])
}

/// Names of the running wakewords the plan removes.
pub open spec fn removed_names<Th>(plan: ReloadPlan, old: Seq<Wakeword<Th>>) -> Seq<Seq<char>> {
    plan.removed@.map_values(|j: usize| old[j as int].name@)
}

/// The wakewords to reload: model-changed ones, then added ones.
pub open spec fn reload_list<Th>(plan: ReloadPlan, new: Seq<Wakeword<Th>>) -> Seq<Wakeword<Th>> {
    pick(new, plan.model_changed@) + pick(new, plan.added@)
}

/// The running detectors and classifiers after applying `plan`:
/// removed names dropped, updated wakewords retuned in place, changed and
/// added ones swapped in with their freshly loaded classifier.
pub open spec fn applied<Th, C>(
    detectors: Seq<Detector<Th>>,
    classifiers: Seq<Named<C>>,
    loaded: Seq<Named<C>>,
    plan: ReloadPlan,
    old: Seq<Wakeword<Th>>,
    new: Seq<Wakeword<Th>>,
) -> ReloadState<Th, C> {
    let names = removed_names(plan, old);
    let ds = retune_all(detectors.filter(keep_unnamed(names)), pick(new, plan.updated@));
    let cs = classifiers.filter(keep_unnamed(names));
    reload_all(ReloadState { detectors: ds, classifiers: cs, loaded }, reload_list(plan, new))
}

fn removed_name_list<Th>(plan: &ReloadPlan, old: &Vec<Wakeword<Th>>) -> (names: Vec<String>)
    requires
        indices_below(plan.removed@, old@.len() as int),
    ensures
        names_view(names@) == removed_names(*plan, old@),
{
    let mut names: Vec<String> = Vec::new();
    let mut k: usize = 0;
    while k < plan.removed.len()
        invariant
            k <= plan.removed@.len(),
            indices_below(plan.removed@, old@.len() as int),
            names_view(names@) == removed_names(*plan, old@).subrange(0, k as int),
        decreases plan.removed@.len() - k,
    {
        let j = plan.removed[k];
        assert(plan.removed@[k as int] < old@.len());
        let ghost before = names@;
        names.push(old[j].name.clone());
        assert(names@ == before.push(old@[j as int].name));
        assert(names_view(names@) =~= names_view(before).push(old@[j as int].name@));
        assert(removed_names(*plan, old@)[k as int] == old@[j as int].name@);
        assert(names_view(names@) =~= removed_names(*plan, old@).subrange(0, k + 1));
        k += 1;
    }
    assert(removed_names(*plan, old@).subrange(0, k as int) =~= removed_names(*plan, old@));
    names
}

fn retune_updated<Th: Copy>(detectors: &mut Vec<Detector<Th>>, plan: &ReloadPlan, new: &Vec<Wakeword<Th>>)
    requires
        indices_below(plan.updated@, new@.len() as int),
    ensures
        final(detectors)@ == retune_all(old(detectors)@, pick(new@, plan.updated@)),
{
    let ghost ws = pick(new@, plan.updated@);
    let mut k: usize = 0;
    assert(ws.subrange(0, ws.len() as int) =~= ws);
    while k < plan.updated.len()
        invariant
            k <= plan.updated@.len(),
            ws == pick(new@, plan.updated@),
            indices_below(plan.updated@, new@.len() as int),
            retune_all(old(detectors)@, ws) == retune_all(detectors@, ws.subrange(k as int, ws.len() as int)),
        decreases plan.updated@.len() - k,
    {
        let i = plan.updated[k];
        assert(plan.updated@[k as int] < new@.len());
        let w = &new[i];
        assert(ws.subrange(k as int, ws.len() as int).drop_first() =~= ws.subrange(k + 1, ws.len() as int));
        assert(ws[k as int] == *w);
        proof {
            lemma_first_named(detectors@, w.name@);
        }
        match position_named(detectors, w.name.as_str()) {
            Some(p) => {
                let ghost before = detectors@;
                let mut d = detectors.remove(p);
                d.retune(w.threshold, w.cooldown_ms, w.enabled);
                detectors.insert(p, d);
                assert(detectors@ =~= retune_first(before, *w));
            },
            None => {},
        }
        k += 1;
    }
}

/// Apply a reload plan to the running detectors and classifiers. `loaded`
/// holds the classifiers loaded for the changed and added wakewords;
/// `prev` and `next` are the configurations the plan was built from.
pub fn apply_reload_plan<Th: Copy, C>(
    detectors: &mut Vec<Detector<Th>>,
    classifiers: &mut Vec<Named<C>>,
    plan: &ReloadPlan,
    loaded: Vec<Named<C>>,
    prev: &Vec<Wakeword<Th>>,
    next: &Vec<Wakeword<Th>>,
)
    requires
        plan_fits(*plan, prev@.len() as int, next@.len() as int),
    ensures
        final(detectors)@ == applied(old(detectors)@, old(classifiers)@, loaded@, *plan, prev@, next@).detectors,
        final(classifiers)@ == applied(old(detectors)@, old(classifiers)@, loaded@, *plan, prev@, next@).classifiers,
{
    let gone = removed_name_list(plan, prev);
    retain_unnamed(detectors, &gone);
    retain_unnamed(classifiers, &gone);
    retune_updated(detectors, plan, next);
    let ghost st0 = ReloadState { detectors: detectors@, classifiers: classifiers@, loaded: loaded@ };
    let mut loaded = loaded;
    reload_each(detectors, classifiers, &mut loaded, &plan.model_changed, next);
    reload_each(detectors, classifiers, &mut loaded, &plan.added, next);
    proof {
        lemma_reload_all_concat(st0, pick(next@, plan.model_changed@), pick(next@, plan.added@));
    }
}

proof fn lemma_reload_all_concat<Th, C>(st: ReloadState<Th, C>, a: Seq<Wakeword<Th>>, b: Seq<Wakeword<Th>>)
    ensures
        reload_all(st, a + b) == reload_all(reload_all(st, a), b),
    decreases a.len(),
{
    if a.len() > 0 {
        assert((a + b).drop_first() =~= a.drop_first() + b);
        assert((a + b)[0] == a[0]);
        lemma_reload_all_concat(reload_one(st, a[0]), a.drop_first(), b);
    } else {
        assert(a + b =~= b);
    }
}

fn reload_each<Th: Copy, C>(
    detectors: &mut Vec<Detector<Th>>,
    classifiers: &mut Vec<Named<C>>,
    loaded: &mut Vec<Named<C>>,
    idx: &Vec<usize>,
    next: &Vec<Wakeword<Th>>,
)
    requires
        indices_below(idx@, next@.len() as int),
    ensures
        (ReloadState { detectors: final(detectors)@, classifiers: final(classifiers)@, loaded: final(loaded)@ })
            == reload_all(
            ReloadState { detectors: old(detectors)@, classifiers: old(classifiers)@, loaded: old(loaded)@ },
            pick(next@, idx@),
        ),
{
    let ghost ws = pick(next@, idx@);
    let ghost start = ReloadState { detectors: detectors@, classifiers: classifiers@, loaded: loaded@ };
    let mut k: usize = 0;
    assert(ws.subrange(0, ws.len() as int) =~= ws);
    while k < idx.len()
        invariant
            ws == pick(next@, idx@),
            ws.len() == idx@.len(),
            k <= idx@.len(),
            indices_below(idx@, next@.len() as int),
            reload_all(start, ws) == reload_all(
                ReloadState { detectors: detectors@, classifiers: classifiers@, loaded: loaded@ },
                ws.subrange(k as int, ws.len() as int),
            ),
        decreases idx@.len() - k,
    {
        assert(idx@[k as int] < next@.len());
        let i = idx[k];
        let w = &next[i];
        assert(ws[k as int] == *w);
        assert(ws.subrange(k as int, ws.len() as int).drop_first() =~= ws.subrange(k + 1, ws.len() as int));
        let ghost st = ReloadState { detectors: detectors@, classifiers: classifiers@, loaded: loaded@ };
        match position_named(loaded, w.name.as_str()) {
            Some(p) => {
                proof {
                    lemma_first_named(loaded@, w.name@);
                }
                let clf = loaded.remove(p);
                let mut one: Vec<String> = Vec::new();
                one.push(w.name.clone());
                assert(names_view(one@) =~= seq![w.name@]);
                retain_unnamed(classifiers, &one);
                classifiers.push(clf);
                retain_unnamed(detectors, &one);
                detectors.push(Detector::new(w.name.clone(), w.threshold, w.cooldown_ms, w.enabled));
                assert(ReloadState { detectors: detectors@, classifiers: classifiers@, loaded: loaded@ } == reload_one(st, *w));
            },
            None => {},
        }
        k += 1;
    }
    assert(ws.subrange(idx@.len() as int, ws.len() as int) =~= Seq::<Wakeword<Th>>::empty());
}

impl<Th> HasName for Wakeword<Th> {
    open spec fn name_view(&self) -> Seq<char> {
        self.name@
    }

    fn name_str(&self) -> (r: &str) {
        self.name.as_str()
    }
}

/// The names of a list of named items, in order.
pub open spec fn names_of<T: HasName>(s: Seq<T>) -> Seq<Seq<char>> {
    s.map_values(|x: T| x.name_view())
}

/// Some item of `s` is named `n`.
pub open spec fn has_named<T: HasName>(s: Seq<T>, n: Seq<char>) -> bool {
    names_of(s).contains(n)
}

pub proof fn lemma_first_named_has<T: HasName>(s: Seq<T>, n: Seq<char>)
    ensures
        first_named(s, n) >= 0 <==> has_named(s, n),
    decreases s.len(),
{
    if s.len() > 0 {
        lemma_first_named_has(s.drop_first(), n);
        if s[0].name_view() == n {
            assert(names_of(s)[0] == n);
        } else {
            if has_named(s, n) {
                let k = choose|k: int| 0 <= k < names_of(s).len() && names_of(s)[k] == n;
                assert(k > 0);
                assert(names_of(s.drop_first())[k - 1] == n);
            }
            if has_named(s.drop_first(), n) {
                let k = choose|k: int| 0 <= k < names_of(s.drop_first()).len() && names_of(s.drop_first())[k] == n;
                assert(names_of(s)[k + 1] == n);
            }
        }
    } else {
        assert(names_of(s).len() == 0);
    }
}

/// Filtering by name commutes with taking the names.
pub proof fn lemma_names_of_filter<T: HasName>(s: Seq<T>, ns: Seq<Seq<char>>)
    ensures
        names_of(s.filter(keep_unnamed::<T>(ns))) == names_of(s).filter(|n: Seq<char>| !ns.contains(n)),
    decreases s.len(),
{
    reveal(Seq::filter);
    let p = keep_unnamed::<T>(ns);
    let q = |n: Seq<char>| !ns.contains(n);
    if s.len() > 0 {
        lemma_names_of_filter(s.drop_last(), ns);
        assert(names_of(s).drop_last() =~= names_of(s.drop_last()));
        assert(names_of(s).last() == s.last().name_view());
        if p(s.last()) {
            assert(names_of(s.drop_last().filter(p).push(s.last())) =~= names_of(s.drop_last().filter(p)).push(s.last().name_view()));
        }
    } else {
        assert(names_of(s.filter(p)) =~= names_of(s).filter(q));
    }
}

/// Filtering out a name no item carries changes nothing.
pub proof fn lemma_filter_absent<T: HasName>(s: Seq<T>, n: Seq<char>)
    requires
        !has_named(s, n),
    ensures
        s.filter(keep_unnamed::<T>(seq![n])) == s,
    decreases s.len(),
{
    reveal(Seq::filter);
    if s.len() > 0 {
        assert(!has_named(s.drop_last(), n)) by {
            if has_named(s.drop_last(), n) {
                let k = choose|k: int| 0 <= k < names_of(s.drop_last()).len() && names_of(s.drop_last())[k] == n;
                assert(names_of(s)[k] == n);
            }
        }
        lemma_filter_absent(s.drop_last(), n);
        assert(names_of(s)[s.len() - 1] == s.last().name_view());
        assert(s.last().name_view() != n);
        assert(!seq![n].contains(s.last().name_view()));
        assert(s.drop_last().push(s.last()) =~= s);
    }
}

/// Filtering a list that ends in an item named `n` by `n` drops that item.
pub proof fn lemma_filter_push_named<T: HasName>(s: Seq<T>, x: T, n: Seq<char>)
    requires
        x.name_view() == n,
    ensures
        s.push(x).filter(keep_unnamed::<T>(seq![n])) == s.filter(keep_unnamed::<T>(seq![n])),
{
    reveal(Seq::filter);
    assert(s.push(x).drop_last() =~= s);
    assert(seq![n].contains(n)) by {
        assert(seq![n][0] == n);
    }
}

/// A plan built for `old` and `new` only holds indices into them.
pub proof fn lemma_plan_of_fits<Th>(plan: ReloadPlan, old: Seq<Wakeword<Th>>, new: Seq<Wakeword<Th>>)
    requires
        plan_of(plan, old, new),
    ensures
        plan_fits(plan, old.len() as int, new.len() as int),
{
}

impl ReloadPlan {
    /// Whether every index of the plan is valid for configurations of
    /// `old_len` and `new_len` wakewords.
    pub fn fits(&self, old_len: usize, new_len: usize) -> (b: bool)
        ensures
            b == plan_fits(*self, old_len as int, new_len as int),
    {
        all_below(&self.added, new_len) && all_below(&self.model_changed, new_len) && all_below(
            &self.updated,
            new_len,
        ) && all_below(&self.removed, old_len)
    }
}

fn all_below(idx: &Vec<usize>, n: usize) -> (b: bool)
    ensures
        b == indices_below(idx@, n as int),
{
    let mut k: usize = 0;
    while k < idx.len()
        invariant
            k <= idx@.len(),
            forall|j: int| 0 <= j < k ==> #[trigger] idx@[j] < n,
        decreases idx@.len() - k,
    {
        if idx[k] >= n {
            return false;
        }
        k += 1;
    }
    true
}

pub proof fn lemma_has_name_named<Th>(ws: Seq<Wakeword<Th>>, n: Seq<char>)
    ensures
        has_name(ws, n) <==> has_named(ws, n),
{
    if has_name(ws, n) {
        let i = choose|i: int| 0 <= i < ws.len() && (#[trigger] ws[i]).name@ == n;
        assert(names_of(ws)[i] == n);
    }
    if has_named(ws, n) {
        let i = choose|i: int| 0 <= i < names_of(ws).len() && names_of(ws)[i] == n;
        assert(ws[i].name@ == n);
    }
}

proof fn lemma_has_named_filter<T: HasName>(s: Seq<T>, ns: Seq<Seq<char>>, n: Seq<char>)
    ensures
        has_named(s.filter(keep_unnamed::<T>(ns)), n) <==> (has_named(s, n) && !ns.contains(n)),
{
    let q = |m: Seq<char>| !ns.contains(m);
    lemma_names_of_filter(s, ns);
    if has_named(s.filter(keep_unnamed::<T>(ns)), n) {
        names_of(s).lemma_filter_contains_rev(q, n);
    }
    if has_named(s, n) && !ns.contains(n) {
        let i = choose|i: int| 0 <= i < names_of(s).len() && names_of(s)[i] == n;
        names_of(s).lemma_filter_contains(q, i);
    }
}

proof fn lemma_has_named_push<T: HasName>(s: Seq<T>, x: T, n: Seq<char>)
    ensures
        has_named(s.push(x), n) <==> (has_named(s, n) || x.name_view() == n),
{
    assert(names_of(s.push(x)) =~= names_of(s).push(x.name_view()));
    if has_named(s, n) {
        let i = choose|i: int| 0 <= i < names_of(s).len() && names_of(s)[i] == n;
        assert(names_of(s.push(x))[i] == n);
    }
    if x.name_view() == n {
        assert(names_of(s.push(x))[s.len() as int] == n);
    }
    if has_named(s.push(x), n) && x.name_view() != n {
        let i = choose|i: int| 0 <= i < names_of(s.push(x)).len() && names_of(s.push(x))[i] == n;
        assert(names_of(s)[i] == n);
    }
}

proof fn lemma_has_named_remove<T: HasName>(s: Seq<T>, k: int, n: Seq<char>)
    requires
        0 <= k < s.len(),
        has_named(s, n),
        s[k].name_view() != n,
    ensures
        has_named(s.remove(k), n),
{
    let i = choose|i: int| 0 <= i < names_of(s).len() && names_of(s)[i] == n;
    let j = if i < k { i } else { i - 1 };
    assert(s.remove(k)[j] == s[i]);
    assert(names_of(s.remove(k))[j] == n);
}

proof fn lemma_retune_names<Th>(ds: Seq<Detector<Th>>, ws: Seq<Wakeword<Th>>)
    ensures
        names_of(retune_all(ds, ws)) == names_of(ds),
    decreases ws.len(),
{
    if ws.len() > 0 {
        let w = ws[0];
        let k = first_named(ds, w.name@);
        lemma_first_named(ds, w.name@);
        if k >= 0 {
            ds[k].lemma_settings(w.name, w.threshold, w.cooldown_ms, w.enabled);
            assert(names_of(retune_first(ds, w)) =~= names_of(ds));
        }
        lemma_retune_names(retune_first(ds, w), ws.drop_first());
    }
}

/// Names of the wakewords in `ws` are pairwise different.
pub open spec fn names_distinct<T: HasName>(ws: Seq<T>) -> bool {
    forall|i: int, j: int| 0 <= i < j < ws.len() ==> (#[trigger] ws[i]).name_view() != (#[trigger] ws[j]).name_view()
}

proof fn lemma_reload_names<Th, C>(st: ReloadState<Th, C>, ws: Seq<Wakeword<Th>>, n: Seq<char>)
    requires
        names_distinct(ws),
        forall|i: int| 0 <= i < ws.len() ==> has_named(st.loaded, (#[trigger] ws[i]).name@),
    ensures
        has_named(reload_all(st, ws).detectors, n) <==> (has_named(st.detectors, n) || has_named(ws, n)),
        has_named(reload_all(st, ws).classifiers, n) <==> (has_named(st.classifiers, n) || has_named(ws, n)),
    decreases ws.len(),
{
    if ws.len() == 0 {
        assert(names_of(ws).len() == 0);
    } else {
        let w = ws[0];
        let k = first_named(st.loaded, w.name@);
        lemma_first_named(st.loaded, w.name@);
        lemma_first_named_has(st.loaded, w.name@);
        assert(has_named(st.loaded, ws[0].name@));
        let fresh = Detector::fresh(w.name, w.threshold, w.cooldown_ms, w.enabled);
        fresh.lemma_settings(w.name, w.threshold, w.cooldown_ms, w.enabled);
        let next = reload_one(st, w);
        let one = seq![w.name@];
        assert(one.contains(w.name@)) by {
            assert(one[0] == w.name@);
        }
        assert forall|m: Seq<char>| one.contains(m) implies m == w.name@ by {
            let i = choose|i: int| 0 <= i < one.len() && one[i] == m;
        }
        assert forall|m: Seq<char>| #[trigger] has_named(next.detectors, m) <==> (has_named(st.detectors, m) || m == w.name@) by {
            lemma_has_named_filter(st.detectors, one, m);
            lemma_has_named_push(st.detectors.filter(keep_unnamed::<Detector<Th>>(one)), fresh, m);
        }
        assert forall|m: Seq<char>| #[trigger] has_named(next.classifiers, m) <==> (has_named(st.classifiers, m) || m == w.name@) by {
            lemma_has_named_filter(st.classifiers, one, m);
            lemma_has_named_push(st.classifiers.filter(keep_unnamed::<Named<C>>(one)), st.loaded[k], m);
        }
        let rest = ws.drop_first();
        assert forall|i: int| 0 <= i < rest.len() implies has_named(next.loaded, (#[trigger] rest[i]).name@) by {
            assert(rest[i] == ws[i + 1]);
            assert(ws[0].name_view() != ws[i + 1].name_view());
            lemma_has_named_remove(st.loaded, k, rest[i].name@);
        }
        assert(names_distinct(rest)) by {
            assert forall|i: int, j: int| 0 <= i < j < rest.len() implies (#[trigger] rest[i]).name_view() != (#[trigger] rest[j]).name_view() by {
                assert(rest[i] == ws[i + 1] && rest[j] == ws[j + 1]);
            }
        }
        lemma_reload_names(next, rest, n);
        assert(names_of(ws) =~= seq![w.name@] + names_of(rest));
        if has_named(ws, n) && n != w.name@ {
            let i = choose|i: int| 0 <= i < names_of(ws).len() && names_of(ws)[i] == n;
            assert(names_of(rest)[i - 1] == n);
        }
        if has_named(rest, n) {
            let i = choose|i: int| 0 <= i < names_of(rest).len() && names_of(rest)[i] == n;
            assert(names_of(ws)[i + 1] == n);
        }
        if n == w.name@ {
            assert(names_of(ws)[0] == n);
        }
    }
}

proof fn lemma_reload_list_distinct<Th>(plan: ReloadPlan, old: Seq<Wakeword<Th>>, new: Seq<Wakeword<Th>>)
    requires
        plan_of(plan, old, new),
        names_distinct(new),
    ensures
        names_distinct(reload_list(plan, new)),
{
    let mc = plan.model_changed@;
    let ad = plan.added@;
    let ws = reload_list(plan, new);
    assert forall|a: int, b: int| 0 <= a < b < ws.len() implies (#[trigger] ws[a]).name_view() != (#[trigger] ws[b]).name_view() by {
        let ia: int = if a < mc.len() { mc[a] as int } else { ad[a - mc.len()] as int };
        let ib: int = if b < mc.len() { mc[b] as int } else { ad[b - mc.len()] as int };
        assert(ws[a] == new[ia]);
        assert(ws[b] == new[ib]);
        if a < mc.len() && b >= mc.len() {
            assert(change_is(old, new, Change::ModelChanged)(ia));
            assert(change_is(old, new, Change::Added)(ib));
        }
        assert(ia != ib);
        if ia < ib {
            assert(new[ia].name_view() != new[ib].name_view());
        } else {
            assert(new[ib].name_view() != new[ia].name_view());
        }
    }
}

/// Reloading reconciles the running wakewords with the re-read
/// configuration: when the running detectors and classifiers match the
/// old configuration, the new one names each wakeword once, and a
/// classifier was loaded for every added or changed wakeword, then
/// afterwards exactly the wakewords of the new configuration have a
/// detector and a classifier.
pub proof fn law_reload_reconciles<Th, C>(
    detectors: Seq<Detector<Th>>,
    classifiers: Seq<Named<C>>,
    loaded: Seq<Named<C>>,
    plan: ReloadPlan,
    old: Seq<Wakeword<Th>>,
    new: Seq<Wakeword<Th>>,
    n: Seq<char>,
)
    requires
        old.len() <= usize::MAX,
        new.len() <= usize::MAX,
        plan_of(plan, old, new),
        names_of(detectors) == names_of(old),
        names_of(classifiers) == names_of(old),
        names_distinct(new),
        forall|i: int| 0 <= i < reload_list(plan, new).len() ==> has_named(loaded, (#[trigger] reload_list(plan, new)[i]).name@),
    ensures
        has_named(applied(detectors, classifiers, loaded, plan, old, new).detectors, n) <==> has_named(new, n),
        has_named(applied(detectors, classifiers, loaded, plan, old, new).classifiers, n) <==> has_named(new, n),
{
    let rn = removed_names(plan, old);
    // A name is removed exactly when the old configuration has it and the new one does not.
    lemma_has_name_named(new, n);
    lemma_has_name_named(old, n);
    assert(rn.contains(n) <==> (has_named(old, n) && !has_named(new, n))) by {
        if rn.contains(n) {
            let k = choose|k: int| 0 <= k < rn.len() && rn[k] == n;
            let j = plan.removed@[k] as int;
            assert(name_dropped(old, new)(j));
            assert(names_of(old)[j] == n);
        }
        if has_named(old, n) && !has_named(new, n) {
            let j = choose|j: int| 0 <= j < names_of(old).len() && names_of(old)[j] == n;
            assert(old[j].name@ == n);
            assert(name_dropped(old, new)(j));
            assert(plan.removed@.contains(j as usize));
            let k = choose|k: int| 0 <= k < plan.removed@.len() && plan.removed@[k] == j as usize;
            assert(rn[k] == old[plan.removed@[k] as int].name@);
            assert(rn[k] == n);
        }
    }
    let ds1 = detectors.filter(keep_unnamed::<Detector<Th>>(rn));
    let cs1 = classifiers.filter(keep_unnamed::<Named<C>>(rn));
    lemma_has_named_filter(detectors, rn, n);
    lemma_has_named_filter(classifiers, rn, n);
    let ds2 = retune_all(ds1, pick(new, plan.updated@));
    lemma_retune_names(ds1, pick(new, plan.updated@));
    let ws = reload_list(plan, new);
    lemma_reload_list_distinct(plan, old, new);
    let st = ReloadState { detectors: ds2, classifiers: cs1, loaded };
    lemma_reload_names(st, ws, n);
    // The reloaded names are names of the new configuration ...
    let mc = plan.model_changed@;
    let ad = plan.added@;
    if has_named(ws, n) {
        let a = choose|a: int| 0 <= a < names_of(ws).len() && names_of(ws)[a] == n;
        let i: int = if a < mc.len() { mc[a] as int } else { ad[a - mc.len()] as int };
        assert(ws[a] == new[i]);
        assert(names_of(new)[i] == n);
    }
    // ... and every name of the new configuration is kept or reloaded.
    if has_named(new, n) {
        let i = choose|i: int| 0 <= i < names_of(new).len() && names_of(new)[i] == n;
        law_plan_partitions_new(old, new, i);
        assert(new[i].name@ == n);
        if change_of(old, new[i]) == Change::Added {
            assert(change_is(old, new, Change::Added)(i));
            assert(ad.contains(i as usize));
            let b = choose|b: int| 0 <= b < ad.len() && ad[b] == i as usize;
            assert(pick(new, mc).len() == mc.len());
            assert(pick(new, ad)[b] == new[i]);
            assert(ws[mc.len() + b] == new[i]);
            assert(names_of(ws)[mc.len() + b] == n);
        } else if change_of(old, new[i]) == Change::ModelChanged {
            assert(change_is(old, new, Change::ModelChanged)(i));
            assert(mc.contains(i as usize));
            let b = choose|b: int| 0 <= b < mc.len() && mc[b] == i as usize;
            assert(ws[b] == new[i]);
            assert(names_of(ws)[b] == n);
        }
    }
    assert(has_named(detectors, n) <==> has_named(old, n));
    assert(has_named(classifiers, n) <==> has_named(old, n));
    assert(has_named(ds2, n) <==> has_named(ds1, n));
}

/// Every item of `s` named `n` satisfies `p`.
pub open spec fn all_named<T: HasName>(s: Seq<T>, n: Seq<char>, p: spec_fn(T) -> bool) -> bool {
    forall|k: int| 0 <= k < s.len() && (#[trigger] s[k]).name_view() == n ==> p(s[k])
}

/// A detector carries the settings of wakeword `w`.
pub open spec fn settled<Th>(w: Wakeword<Th>) -> spec_fn(Detector<Th>) -> bool {
    |d: Detector<Th>| {
        &&& d.threshold_spec() == w.threshold
        &&& d.state().cooldown_ns == (w.cooldown_ms as u128 * 1000000) as u128
        &&& d.state().enabled == w.enabled
    }
}

/// A detector is the fresh one built for wakeword `w`.
pub open spec fn fresh_for<Th>(w: Wakeword<Th>) -> spec_fn(Detector<Th>) -> bool {
    |d: Detector<Th>| d == Detector::fresh(w.name, w.threshold, w.cooldown_ms, w.enabled)
}

proof fn lemma_all_named_filter<T: HasName>(s: Seq<T>, ns: Seq<Seq<char>>, n: Seq<char>, p: spec_fn(T) -> bool)
    requires
        all_named(s, n, p),
    ensures
        all_named(s.filter(keep_unnamed::<T>(ns)), n, p),
{
    let f = s.filter(keep_unnamed::<T>(ns));
    assert forall|k: int| 0 <= k < f.len() && (#[trigger] f[k]).name_view() == n implies p(f[k]) by {
        assert(f.contains(f[k]));
        s.lemma_filter_contains_rev(keep_unnamed::<T>(ns), f[k]);
        let j = choose|j: int| 0 <= j < s.len() && s[j] == f[k];
        assert(s[j].name_view() == n);
    }
}

proof fn lemma_filter_drops_name<T: HasName>(s: Seq<T>, n: Seq<char>, p: spec_fn(T) -> bool)
    ensures
        all_named(s.filter(keep_unnamed::<T>(seq![n])), n, p),
{
    let f = s.filter(keep_unnamed::<T>(seq![n]));
    assert forall|k: int| 0 <= k < f.len() && (#[trigger] f[k]).name_view() == n implies p(f[k]) by {
        assert(f.contains(f[k]));
        s.lemma_filter_contains_rev(keep_unnamed::<T>(seq![n]), f[k]);
        assert(seq![n][0] == n);
    }
}

proof fn lemma_filter_distinct<T: HasName>(s: Seq<T>, ns: Seq<Seq<char>>)
    requires
        names_distinct(s),
    ensures
        names_distinct(s.filter(keep_unnamed::<T>(ns))),
    decreases s.len(),
{
    reveal(Seq::filter);
    let p = keep_unnamed::<T>(ns);
    if s.len() > 0 {
        let d = s.drop_last();
        assert(names_distinct(d)) by {
            assert forall|i: int, j: int| 0 <= i < j < d.len() implies (#[trigger] d[i]).name_view() != (#[trigger] d[j]).name_view() by {
                assert(d[i] == s[i] && d[j] == s[j]);
            }
        }
        lemma_filter_distinct(d, ns);
        if p(s.last()) {
            let f = d.filter(p);
            let g = f.push(s.last());
            assert forall|i: int, j: int| 0 <= i < j < g.len() implies (#[trigger] g[i]).name_view() != (#[trigger] g[j]).name_view() by {
                if j == g.len() - 1 {
                    assert(f.contains(g[i]));
                    d.lemma_filter_contains_rev(p, g[i]);
                    let m = choose|m: int| 0 <= m < d.len() && d[m] == g[i];
                    assert(s[m] == g[i]);
                    assert(s[s.len() - 1] == g[j]);
                } else {
                    assert(g[i] == f[i] && g[j] == f[j]);
                }
            }
        }
    }
}

proof fn lemma_retune_keeps<Th>(ds: Seq<Detector<Th>>, ws: Seq<Wakeword<Th>>, n: Seq<char>, p: spec_fn(Detector<Th>) -> bool)
    requires
        all_named(ds, n, p),
        forall|a: int| 0 <= a < ws.len() ==> (#[trigger] ws[a]).name@ != n,
    ensures
        all_named(retune_all(ds, ws), n, p),
    decreases ws.len(),
{
    if ws.len() > 0 {
        let w = ws[0];
        let k = first_named(ds, w.name@);
        lemma_first_named(ds, w.name@);
        let ds1 = retune_first(ds, w);
        if k >= 0 {
            ds[k].lemma_settings(w.name, w.threshold, w.cooldown_ms, w.enabled);
            assert forall|j: int| 0 <= j < ds1.len() && (#[trigger] ds1[j]).name_view() == n implies p(ds1[j]) by {
                if j != k {
                    assert(ds1[j] == ds[j]);
                }
            }
        }
        assert forall|a: int| 0 <= a < ws.drop_first().len() implies (#[trigger] ws.drop_first()[a]).name@ != n by {
            assert(ws.drop_first()[a] == ws[a + 1]);
        }
        lemma_retune_keeps(ds1, ws.drop_first(), n, p);
    }
}

proof fn lemma_retune_settles<Th>(ds: Seq<Detector<Th>>, ws: Seq<Wakeword<Th>>, a: int)
    requires
        names_distinct(ds),
        names_distinct(ws),
        0 <= a < ws.len(),
    ensures
        all_named(retune_all(ds, ws), ws[a].name@, settled(ws[a])),
    decreases ws.len(),
{
    let w = ws[0];
    let n = ws[a].name@;
    let k = first_named(ds, w.name@);
    lemma_first_named(ds, w.name@);
    let ds1 = retune_first(ds, w);
    lemma_retune_names(ds, seq![w]);
    if k >= 0 {
        ds[k].lemma_settings(w.name, w.threshold, w.cooldown_ms, w.enabled);
    }
    assert(names_of(ds1) == names_of(ds)) by {
        if k >= 0 {
            assert(names_of(ds1) =~= names_of(ds));
        }
    }
    assert(names_distinct(ds1)) by {
        assert forall|i: int, j: int| 0 <= i < j < ds1.len() implies (#[trigger] ds1[i]).name_view() != (#[trigger] ds1[j]).name_view() by {
            assert(names_of(ds1)[i] == names_of(ds)[i]);
            assert(names_of(ds1)[j] == names_of(ds)[j]);
        }
    }
    let rest = ws.drop_first();
    assert(names_distinct(rest)) by {
        assert forall|i: int, j: int| 0 <= i < j < rest.len() implies (#[trigger] rest[i]).name_view() != (#[trigger] rest[j]).name_view() by {
            assert(rest[i] == ws[i + 1] && rest[j] == ws[j + 1]);
        }
    }
    if a == 0 {
        // The one detector named like `w` (if any) takes its settings; no later entry has that name.
        assert(all_named(ds1, n, settled(w))) by {
            assert forall|j: int| 0 <= j < ds1.len() && (#[trigger] ds1[j]).name_view() == n implies settled(w)(ds1[j]) by {
                assert(names_of(ds1)[j] == names_of(ds)[j]);
                assert(ds[j].name_view() == n);
                assert(k >= 0);
                if j != k {
                    if j < k {
                        assert(ds[j].name_view() != ds[k].name_view());
                    } else {
                        assert(ds[k].name_view() != ds[j].name_view());
                    }
                }
            }
        }
        assert forall|b: int| 0 <= b < rest.len() implies (#[trigger] rest[b]).name@ != n by {
            assert(rest[b] == ws[b + 1]);
            assert(ws[0].name_view() != ws[b + 1].name_view());
        }
        lemma_retune_keeps(ds1, rest, n, settled(w));
    } else {
        assert(rest[a - 1] == ws[a]);
        lemma_retune_settles(ds1, rest, a - 1);
    }
}

proof fn lemma_reload_keeps<Th, C>(st: ReloadState<Th, C>, ws: Seq<Wakeword<Th>>, n: Seq<char>, p: spec_fn(Detector<Th>) -> bool)
    requires
        all_named(st.detectors, n, p),
        forall|a: int| 0 <= a < ws.len() ==> (#[trigger] ws[a]).name@ != n,
    ensures
        all_named(reload_all(st, ws).detectors, n, p),
    decreases ws.len(),
{
    if ws.len() > 0 {
        let w = ws[0];
        let next = reload_one(st, w);
        if first_named(st.loaded, w.name@) >= 0 {
            let fresh = Detector::fresh(w.name, w.threshold, w.cooldown_ms, w.enabled);
            fresh.lemma_settings(w.name, w.threshold, w.cooldown_ms, w.enabled);
            lemma_all_named_filter(st.detectors, seq![w.name@], n, p);
            let f = st.detectors.filter(keep_unnamed::<Detector<Th>>(seq![w.name@]));
            assert forall|j: int| 0 <= j < next.detectors.len() && (#[trigger] next.detectors[j]).name_view() == n implies p(next.detectors[j]) by {
                if j < f.len() {
                    assert(next.detectors[j] == f[j]);
                }
            }
        }
        assert forall|a: int| 0 <= a < ws.drop_first().len() implies (#[trigger] ws.drop_first()[a]).name@ != n by {
            assert(ws.drop_first()[a] == ws[a + 1]);
        }
        lemma_reload_keeps(next, ws.drop_first(), n, p);
    }
}

proof fn lemma_reload_settles<Th, C>(st: ReloadState<Th, C>, ws: Seq<Wakeword<Th>>, a: int)
    requires
        names_distinct(ws),
        forall|i: int| 0 <= i < ws.len() ==> has_named(st.loaded, (#[trigger] ws[i]).name@),
        0 <= a < ws.len(),
    ensures
        all_named(reload_all(st, ws).detectors, ws[a].name@, fresh_for(ws[a])),
    decreases ws.len(),
{
    let w = ws[0];
    let n = ws[a].name@;
    let k = first_named(st.loaded, w.name@);
    lemma_first_named(st.loaded, w.name@);
    lemma_first_named_has(st.loaded, w.name@);
    assert(has_named(st.loaded, ws[0].name@));
    let next = reload_one(st, w);
    let rest = ws.drop_first();
    assert(names_distinct(rest)) by {
        assert forall|i: int, j: int| 0 <= i < j < rest.len() implies (#[trigger] rest[i]).name_view() != (#[trigger] rest[j]).name_view() by {
            assert(rest[i] == ws[i + 1] && rest[j] == ws[j + 1]);
        }
    }
    assert forall|i: int| 0 <= i < rest.len() implies has_named(next.loaded, (#[trigger] rest[i]).name@) by {
        assert(rest[i] == ws[i + 1]);
        assert(ws[0].name_view() != ws[i + 1].name_view());
        lemma_has_named_remove(st.loaded, k, rest[i].name@);
    }
    if a == 0 {
        let fresh = Detector::fresh(w.name, w.threshold, w.cooldown_ms, w.enabled);
        lemma_filter_drops_name(st.detectors, n, fresh_for(w));
        let f = st.detectors.filter(keep_unnamed::<Detector<Th>>(seq![n]));
        assert(all_named(next.detectors, n, fresh_for(w))) by {
            assert forall|j: int| 0 <= j < next.detectors.len() && (#[trigger] next.detectors[j]).name_view() == n implies fresh_for(w)(next.detectors[j]) by {
                if j < f.len() {
                    assert(next.detectors[j] == f[j]);
                }
            }
        }
        assert forall|b: int| 0 <= b < rest.len() implies (#[trigger] rest[b]).name@ != n by {
            assert(rest[b] == ws[b + 1]);
            assert(ws[0].name_view() != ws[b + 1].name_view());
        }
        lemma_reload_keeps(next, rest, n, fresh_for(w));
    } else {
        assert(rest[a - 1] == ws[a]);
        lemma_reload_settles(next, rest, a - 1);
    }
}

/// Reloading applies the re-read settings: under the conditions of
/// [`law_reload_reconciles`] (and a running configuration that also names
/// each wakeword once), every detector named like a wakeword of the new
/// configuration carries that wakeword's threshold, cooldown and enabled
/// flag; a wakeword that was added or whose model changed gets a fresh
/// detector (never above threshold, never fired).
pub proof fn law_reload_applies_settings<Th, C>(
    detectors: Seq<Detector<Th>>,
    classifiers: Seq<Named<C>>,
    loaded: Seq<Named<C>>,
    plan: ReloadPlan,
    old: Seq<Wakeword<Th>>,
    new: Seq<Wakeword<Th>>,
    i: int,
)
    requires
        old.len() <= usize::MAX,
        new.len() <= usize::MAX,
        plan_of(plan, old, new),
        names_of(detectors) == names_of(old),
        names_distinct(old),
        names_distinct(new),
        forall|j: int| 0 <= j < reload_list(plan, new).len() ==> has_named(loaded, (#[trigger] reload_list(plan, new)[j]).name@),
        0 <= i < new.len(),
    ensures
        all_named(applied(detectors, classifiers, loaded, plan, old, new).detectors, new[i].name@, settled(new[i])),
        change_of(old, new[i]) != Change::Updated ==> all_named(
            applied(detectors, classifiers, loaded, plan, old, new).detectors,
            new[i].name@,
            fresh_for(new[i]),
        ),
{
    let w = new[i];
    let n = w.name@;
    let rn = removed_names(plan, old);
    let ds1 = detectors.filter(keep_unnamed::<Detector<Th>>(rn));
    let ups = pick(new, plan.updated@);
    let ds2 = retune_all(ds1, ups);
    let ws = reload_list(plan, new);
    let cs1 = classifiers.filter(keep_unnamed::<Named<C>>(rn));
    let st = ReloadState { detectors: ds2, classifiers: cs1, loaded };
    let mc = plan.model_changed@;
    let ad = plan.added@;
    lemma_reload_list_distinct(plan, old, new);
    law_plan_partitions_new(old, new, i);
    assert(names_distinct(detectors)) by {
        assert forall|a: int, b: int| 0 <= a < b < detectors.len() implies (#[trigger] detectors[a]).name_view() != (#[trigger] detectors[b]).name_view() by {
            assert(names_of(detectors).len() == detectors.len());
            assert(names_of(old).len() == old.len());
            assert(names_of(detectors)[a] == names_of(old)[a]);
            assert(names_of(detectors)[b] == names_of(old)[b]);
            assert(names_of(old)[a] == old[a].name_view());
            assert(names_of(old)[b] == old[b].name_view());
            assert(old[a].name_view() != old[b].name_view());
        }
    }
    lemma_filter_distinct(detectors, rn);
    if change_of(old, new[i]) == Change::Updated {
        assert(change_is(old, new, Change::Updated)(i));
        assert(plan.updated@.contains(i as usize));
        let b = choose|b: int| 0 <= b < plan.updated@.len() && plan.updated@[b] == i as usize;
        assert(ups[b] == w);
        assert(names_distinct(ups)) by {
            assert forall|x: int, y: int| 0 <= x < y < ups.len() implies (#[trigger] ups[x]).name_view() != (#[trigger] ups[y]).name_view() by {
                let ix = plan.updated@[x] as int;
                let iy = plan.updated@[y] as int;
                assert(ups[x] == new[ix] && ups[y] == new[iy]);
                assert(ix < iy);
            }
        }
        lemma_retune_settles(ds1, ups, b);
        assert forall|a: int| 0 <= a < ws.len() implies (#[trigger] ws[a]).name@ != n by {
            let ia: int = if a < mc.len() { mc[a] as int } else { ad[a - mc.len()] as int };
            assert(ws[a] == new[ia]);
            if a < mc.len() {
                assert(change_is(old, new, Change::ModelChanged)(ia));
            } else {
                assert(change_is(old, new, Change::Added)(ia));
            }
            assert(ia != i);
            if ia < i {
                assert(new[ia].name_view() != new[i].name_view());
            } else {
                assert(new[i].name_view() != new[ia].name_view());
            }
        }
        lemma_reload_keeps(st, ws, n, settled(w));
    } else {
        let a: int = if change_of(old, new[i]) == Change::ModelChanged {
            assert(change_is(old, new, Change::ModelChanged)(i));
            assert(mc.contains(i as usize));
            let b = choose|b: int| 0 <= b < mc.len() && mc[b] == i as usize;
            assert(ws[b] == new[i]);
            b
        } else {
            assert(change_is(old, new, Change::Added)(i));
            assert(ad.contains(i as usize));
            let b = choose|b: int| 0 <= b < ad.len() && ad[b] == i as usize;
            assert(pick(new, mc).len() == mc.len());
            assert(pick(new, ad)[b] == new[i]);
            assert(ws[mc.len() + b] == new[i]);
            mc.len() + b
        };
        lemma_reload_settles(st, ws, a);
        let fresh = Detector::fresh(w.name, w.threshold, w.cooldown_ms, w.enabled);
        fresh.lemma_settings(w.name, w.threshold, w.cooldown_ms, w.enabled);
        let fin = reload_all(st, ws).detectors;
        assert forall|k: int| 0 <= k < fin.len() && (#[trigger] fin[k]).name_view() == n implies settled(w)(fin[k]) by {
            assert(fresh_for(w)(fin[k]));
        }
    }
}

} // verus!
