//! The daemon's wakeword registry: the configured wakewords, their
//! detectors and their loaded classifiers, kept in step by the
//! operations the control interface offers (add, remove, retune), and the
//! rules a model path must follow.

use vstd::prelude::*;

use crate::config::{opt_str_view, tilde_home, tilde_with, tilde_with_home, Wakeword};
use crate::detector::Detector;
use crate::paths::{components, path_starts_with};
use crate::reload::{
    first_named, has_named, keep_unnamed, lemma_filter_absent, lemma_filter_push_named, lemma_first_named,
    lemma_first_named_has, lemma_names_of_filter, names_of, position_named, retain_unnamed, HasName, Named,
};
use crate::config::{validate_cooldown, CooldownTooLong, MAX_COOLDOWN_MS};
use crate::names::{name_verdict, names_view, validate_name, NameError};

verus! {

/// The wakewords the daemon runs: their configuration, detectors and
/// classifiers.
#[derive(Debug)]
pub struct Registry<Th, C> {
    pub wakewords: Vec<Wakeword<Th>>,
    pub detectors: Vec<Detector<Th>>,
    pub classifiers: Vec<Named<C>>,
}

/// No wakeword of that name.
#[derive(Debug, Clone, PartialEq, Eq)]
pub struct UnknownWakeword(pub String);

/// A wakeword of that name is already registered.
#[derive(Debug, Clone, PartialEq, Eq)]
pub struct AlreadyExists(pub String);

/// The three lists carry the same names in the same order.
pub open spec fn in_step<Th, C>(w: Seq<Wakeword<Th>>, d: Seq<Detector<Th>>, c: Seq<Named<C>>) -> bool {
    names_of(w) == names_of(d) && names_of(d) == names_of(c)
}

/// The spec counterpart of [`Registry::retune`]:
/// the first item named `n` replaced by `f` of it.
pub open spec fn update_first<T: HasName>(s: Seq<T>, n: Seq<char>, f: spec_fn(T) -> T) -> Seq<T> {
    let k = first_named(s, n);
    if k < 0 { s } else { s.update(k, f(s[k])) }
}

impl<Th, C> Registry<Th, C> {
    /// The three lists are in step.
    pub open spec fn wf(&self) -> bool {
        in_step(self.wakewords@, self.detectors@, self.classifiers@)
    }
}

impl<Th: Copy, C> Registry<Th, C> {
    /// Whether a wakeword named `name` is configured.
    pub fn contains(&self, name: &str) -> (b: bool)
        ensures
            b == has_named(self.wakewords@, name@),
    {
        let r = position_named(&self.wakewords, name);
        proof {
            lemma_first_named_has(self.wakewords@, name@);
        }
        r.is_some()
    }

    /// The first detector named `name`, to change in place; `None` (and
    /// nothing changed) when no detector has that name.
    pub fn detector_mut(&mut self, name: &str) -> (r: Option<&mut Detector<Th>>)
        ensures
            first_named(old(self).detectors@, name@) < 0 ==> r.is_none() && *final(self) == *old(self),
            first_named(old(self).detectors@, name@) >= 0 ==> r.is_some()
                && *r.unwrap() == old(self).detectors@[first_named(old(self).detectors@, name@)]
                && final(self).detectors@ == old(self).detectors@.update(
                    first_named(old(self).detectors@, name@),
                    *final(r.unwrap()),
                ) && final(self).wakewords == old(self).wakewords
                && final(self).classifiers == old(self).classifiers,
    {
        match position_named(&self.detectors, name) {
            Some(k) => {
                proof {
                    lemma_first_named(self.detectors@, name@);
                }
                Some(&mut self.detectors[k])
            },
            None => None,
        }
    }

    /// The first configured entry named `name`, to change in place;
    /// `None` (and nothing changed) when no entry has that name.
    pub fn wakeword_config_mut(&mut self, name: &str) -> (r: Option<&mut Wakeword<Th>>)
        ensures
            first_named(old(self).wakewords@, name@) < 0 ==> r.is_none() && *final(self) == *old(self),
            first_named(old(self).wakewords@, name@) >= 0 ==> r.is_some()
                && *r.unwrap() == old(self).wakewords@[first_named(old(self).wakewords@, name@)]
                && final(self).wakewords@ == old(self).wakewords@.update(
                    first_named(old(self).wakewords@, name@),
                    *final(r.unwrap()),
                ) && final(self).detectors == old(self).detectors
                && final(self).classifiers == old(self).classifiers,
    {
        match position_named(&self.wakewords, name) {
            Some(k) => {
                proof {
                    lemma_first_named(self.wakewords@, name@);
                }
                Some(&mut self.wakewords[k])
            },
            None => None,
        }
    }

    /// Register `wake` with its loaded `classifier`: a fresh detector,
    /// the classifier and the entry are appended. Refused when the name is
    /// taken.
    pub fn add(&mut self, wake: Wakeword<Th>, classifier: C) -> (r: Result<(), AlreadyExists>)
        ensures
            r is Err <==> has_named(old(self).wakewords@, wake.name@),
            r matches Err(e) ==> e.0@ == wake.name@ && *final(self) == *old(self),
            r is Ok ==> {
                &&& final(self).wakewords@ == old(self).wakewords@.push(wake)
                &&& final(self).detectors@ == old(self).detectors@.push(
                    Detector::fresh(wake.name, wake.threshold, wake.cooldown_ms, wake.enabled),
                )
                &&& final(self).classifiers@ == old(self).classifiers@.push(Named { name: wake.name, item: classifier })
            },
    {
        if self.contains(wake.name.as_str()) {
            return Err(AlreadyExists(wake.name));
        }
        self.detectors.push(Detector::new(wake.name.clone(), wake.threshold, wake.cooldown_ms, wake.enabled));
        self.classifiers.push(Named { name: wake.name.clone(), item: classifier });
        self.wakewords.push(wake);
        Ok(())
    }

    /// Remove every entry, detector and classifier named `name`. Refused
    /// when no wakeword of that name is configured.
    pub fn remove(&mut self, name: &str) -> (r: Result<(), UnknownWakeword>)
        ensures
            r is Err <==> !has_named(old(self).wakewords@, name@),
            r matches Err(e) ==> e.0@ == name@ && *final(self) == *old(self),
            r is Ok ==> {
                &&& final(self).wakewords@ == old(self).wakewords@.filter(keep_unnamed::<Wakeword<Th>>(seq![name@]))
                &&& final(self).detectors@ == old(self).detectors@.filter(keep_unnamed::<Detector<Th>>(seq![name@]))
                &&& final(self).classifiers@ == old(self).classifiers@.filter(keep_unnamed::<Named<C>>(seq![name@]))
            },
    {
        if !self.contains(name) {
            return Err(UnknownWakeword(name.to_owned()));
        }
        let mut one: Vec<String> = Vec::new();
        one.push(name.to_owned());
        assert(names_view(one@) =~= seq![name@]);
        retain_unnamed(&mut self.wakewords, &one);
        retain_unnamed(&mut self.detectors, &one);
        retain_unnamed(&mut self.classifiers, &one);
        Ok(())
    }

    /// Give the first detector named `name` new settings (its detection
    /// state kept) and record them in the first entry of that name.
    /// Refused when no detector has that name.
    pub fn retune(&mut self, name: &str, threshold: Th, cooldown_ms: u32, enabled: bool) -> (r: Result<(), UnknownWakeword>)
        ensures
            r is Err <==> first_named(old(self).detectors@, name@) < 0,
            r matches Err(e) ==> e.0@ == name@ && *final(self) == *old(self),
            r is Ok ==> {
                &&& final(self).detectors@ == update_first(
                    old(self).detectors@,
                    name@,
                    |d: Detector<Th>| d.retuned(threshold, cooldown_ms, enabled),
                )
                &&& final(self).wakewords@ == update_first(
                    old(self).wakewords@,
                    name@,
                    |w: Wakeword<Th>| Wakeword { threshold, cooldown_ms, enabled, ..w },
                )
                &&& final(self).classifiers@ == old(self).classifiers@
            },
    {
        let k = match position_named(&self.detectors, name) {
            Some(k) => k,
            None => {
                return Err(UnknownWakeword(name.to_owned()));
            },
        };
        proof {
            lemma_first_named(self.detectors@, name@);
            lemma_first_named(self.wakewords@, name@);
        }
        let ghost d0 = self.detectors@;
        let mut d = self.detectors.remove(k);
        d.retune(threshold, cooldown_ms, enabled);
        self.detectors.insert(k, d);
        assert(self.detectors@ =~= update_first(d0, name@, |d: Detector<Th>| d.retuned(threshold, cooldown_ms, enabled)));
        let ghost w0 = self.wakewords@;
        match position_named(&self.wakewords, name) {
            Some(j) => {
                let mut w = self.wakewords.remove(j);
                w.threshold = threshold;
                w.cooldown_ms = cooldown_ms;
                w.enabled = enabled;
                self.wakewords.insert(j, w);
                assert(self.wakewords@ =~= update_first(w0, name@, |w: Wakeword<Th>| Wakeword { threshold, cooldown_ms, enabled, ..w }));
            },
            None => {},
        }
        Ok(())
    }
}

/// Adding a wakeword and then removing it by name gives back the
/// registry it started from, whenever the name was free.
pub proof fn law_add_then_remove<Th, C>(reg: Registry<Th, C>, wake: Wakeword<Th>, classifier: C)
    requires
        !has_named(reg.wakewords@, wake.name@),
        reg.wf(),
    ensures
        ({
            let n = seq![wake.name@];
            &&& reg.wakewords@.push(wake).filter(keep_unnamed::<Wakeword<Th>>(n)) == reg.wakewords@
            &&& reg.detectors@.push(Detector::fresh(wake.name, wake.threshold, wake.cooldown_ms, wake.enabled)).filter(
                keep_unnamed::<Detector<Th>>(n),
            ) == reg.detectors@
            &&& reg.classifiers@.push(Named { name: wake.name, item: classifier }).filter(keep_unnamed::<Named<C>>(n))
                == reg.classifiers@
        }),
{
    let n = wake.name@;
    let fresh = Detector::fresh(wake.name, wake.threshold, wake.cooldown_ms, wake.enabled);
    fresh.lemma_settings(wake.name, wake.threshold, wake.cooldown_ms, wake.enabled);
    assert(!has_named(reg.detectors@, n));
    assert(!has_named(reg.classifiers@, n));
    lemma_filter_push_named(reg.wakewords@, wake, n);
    lemma_filter_absent(reg.wakewords@, n);
    lemma_filter_push_named(reg.detectors@, fresh, n);
    lemma_filter_absent(reg.detectors@, n);
    let c = Named { name: wake.name, item: classifier };
    lemma_filter_push_named(reg.classifiers@, c, n);
    lemma_filter_absent(reg.classifiers@, n);
}

/// Every operation keeps the registry in step: after a successful add,
/// remove or retune the entries, detectors and classifiers still carry
/// the same names in the same order.
pub proof fn law_ops_keep_in_step<Th, C>(
    reg: Registry<Th, C>,
    wake: Wakeword<Th>,
    classifier: C,
    name: Seq<char>,
    threshold: Th,
    cooldown_ms: u32,
    enabled: bool,
)
    requires
        reg.wf(),
    ensures
        in_step(
            update_first(reg.wakewords@, name, |w: Wakeword<Th>| Wakeword { threshold, cooldown_ms, enabled, ..w }),
            update_first(reg.detectors@, name, |d: Detector<Th>| d.retuned(threshold, cooldown_ms, enabled)),
            reg.classifiers@,
        ),
        in_step(
            reg.wakewords@.push(wake),
            reg.detectors@.push(Detector::fresh(wake.name, wake.threshold, wake.cooldown_ms, wake.enabled)),
            reg.classifiers@.push(Named { name: wake.name, item: classifier }),
        ),
        in_step(
            reg.wakewords@.filter(keep_unnamed::<Wakeword<Th>>(seq![name])),
            reg.detectors@.filter(keep_unnamed::<Detector<Th>>(seq![name])),
            reg.classifiers@.filter(keep_unnamed::<Named<C>>(seq![name])),
        ),
{
    let fresh = Detector::fresh(wake.name, wake.threshold, wake.cooldown_ms, wake.enabled);
    fresh.lemma_settings(wake.name, wake.threshold, wake.cooldown_ms, wake.enabled);
    let c = Named { name: wake.name, item: classifier };
    assert(names_of(reg.wakewords@.push(wake)) =~= names_of(reg.wakewords@).push(wake.name@));
    assert(names_of(reg.detectors@.push(fresh)) =~= names_of(reg.detectors@).push(wake.name@));
    assert(names_of(reg.classifiers@.push(c)) =~= names_of(reg.classifiers@).push(wake.name@));
    lemma_names_of_filter(reg.wakewords@, seq![name]);
    lemma_names_of_filter(reg.detectors@, seq![name]);
    lemma_names_of_filter(reg.classifiers@, seq![name]);
    let kw = first_named(reg.wakewords@, name);
    let kd = first_named(reg.detectors@, name);
    lemma_first_named(reg.wakewords@, name);
    lemma_first_named(reg.detectors@, name);
    let tw = |w: Wakeword<Th>| Wakeword { threshold, cooldown_ms, enabled, ..w };
    let td = |d: Detector<Th>| d.retuned(threshold, cooldown_ms, enabled);
    if kw >= 0 {
        assert(names_of(update_first(reg.wakewords@, name, tw)) =~= names_of(reg.wakewords@));
    }
    if kd >= 0 {
        reg.detectors@[kd].lemma_settings(wake.name, threshold, cooldown_ms, enabled);
        assert(names_of(update_first(reg.detectors@, name, td)) =~= names_of(reg.detectors@));
    }
}

/// Why a model path was refused.
#[derive(Debug, Clone, PartialEq, Eq)]
pub enum ModelPathError {
    /// The path (after `~` expansion) is not absolute.
    NotAbsolute(String),
    /// The resolved path lies outside the models directory.
    OutsideModelsDir,
}

/// Whether `s` is `~` or starts with `~/`: the form `~` expansion replaces.
pub open spec fn tilde_form(s: Seq<char>) -> bool {
    s.len() > 0 && s[0] == '~' && (s.len() == 1 || s[1] == '/')
}

/// What the first step of resolving `model_path` gives when `~` stands
/// for `home`: the expanded path if it is absolute, else that path refused.
pub open spec fn model_path_outcome(model_path: Seq<char>, home: Option<Seq<char>>, r: Result<String, ModelPathError>) -> bool {
    let e = tilde_with(model_path, home);
    match r {
        Ok(p) => p@ == e && e.len() > 0 && e[0] == '/',
        Err(ModelPathError::NotAbsolute(p)) => p@ == e && !(e.len() > 0 && e[0] == '/'),
        Err(ModelPathError::OutsideModelsDir) => false,
    }
}

/// The first step of resolving a model path, with `~` standing for the
/// home directory `home` (`None`: none is known): expand `~`, then insist
/// on an absolute path.
pub fn expand_model_path_with(model_path: &str, home: Option<&str>) -> (r: Result<String, ModelPathError>)
    ensures
        model_path_outcome(model_path@, opt_str_view(home), r),
{
    let raw = tilde_with_home(model_path, home);
    if raw.as_str().unicode_len() > 0 && raw.as_str().get_char(0) == '/' {
        Ok(raw)
    } else {
        Err(ModelPathError::NotAbsolute(raw))
    }
}

/// The first step of resolving a model path handed in over the control
/// interface: expand `~` against the home directory the process sees
/// (when none is known `~` stands for itself and nothing is expanded),
/// then insist on an absolute path.
pub fn expand_model_path(model_path: &str) -> (r: Result<String, ModelPathError>)
    ensures
        exists|home: Seq<char>| model_path_outcome(model_path@, Some(home), r),
{
    let h = tilde_home();
    expand_model_path_with(model_path, Some(h.as_str()))
}

/// Why a wakeword handed in over the control interface was refused
/// before its model was looked at on disk.
#[derive(Debug, Clone, PartialEq, Eq)]
pub enum AddRefusal {
    Name(NameError),
    /// The threshold is not in `(0, 1]`.
    Threshold,
    Cooldown(CooldownTooLong),
    ModelPath(ModelPathError),
}

/// The checks `Add` runs before loading the model, in their order: the
/// name, the threshold (whose range test the caller makes on the float),
/// the cooldown, then the model path expanded against `home`. Success
/// gives the expanded model path.
pub open spec fn admit_outcome(
    name: Seq<char>,
    threshold_in_range: bool,
    cooldown_ms: u32,
    model_path: Seq<char>,
    home: Option<Seq<char>>,
    r: Result<String, AddRefusal>,
) -> bool {
    if name_verdict(name) is Err {
        r == Err::<String, AddRefusal>(AddRefusal::Name(name_verdict(name)->Err_0))
    } else if !threshold_in_range {
        r == Err::<String, AddRefusal>(AddRefusal::Threshold)
    } else if cooldown_ms > MAX_COOLDOWN_MS {
        r == Err::<String, AddRefusal>(AddRefusal::Cooldown(CooldownTooLong { got: cooldown_ms, max: MAX_COOLDOWN_MS }))
    } else {
        match r {
            Ok(p) => model_path_outcome(model_path, home, Ok(p)),
            Err(AddRefusal::ModelPath(e)) => model_path_outcome(model_path, home, Err(e)),
            _ => false,
        }
    }
}

/// The checks of `Add` before the model is loaded, with `~` standing for
/// `home`.
pub fn admit_wakeword_with(
    name: &str,
    threshold_in_range: bool,
    cooldown_ms: u32,
    model_path: &str,
    home: Option<&str>,
) -> (r: Result<String, AddRefusal>)
    ensures
        admit_outcome(name@, threshold_in_range, cooldown_ms, model_path@, opt_str_view(home), r),
{
    match validate_name(name) {
        Ok(()) => {},
        Err(e) => {
            return Err(AddRefusal::Name(e));
        },
    }
    if !threshold_in_range {
        return Err(AddRefusal::Threshold);
    }
    match validate_cooldown(cooldown_ms) {
        Ok(()) => {},
        Err(e) => {
            return Err(AddRefusal::Cooldown(e));
        },
    }
    match expand_model_path_with(model_path, home) {
        Ok(p) => Ok(p),
        Err(e) => Err(AddRefusal::ModelPath(e)),
    }
}

/// The checks of `Add` before the model is loaded, with `~` expanded
/// against the home directory the process sees.
pub fn admit_wakeword(name: &str, threshold_in_range: bool, cooldown_ms: u32, model_path: &str) -> (r: Result<String, AddRefusal>)
    ensures
        exists|home: Seq<char>| admit_outcome(name@, threshold_in_range, cooldown_ms, model_path@, Some(home), r),
{
    let h = tilde_home();
    admit_wakeword_with(name, threshold_in_range, cooldown_ms, model_path, Some(h.as_str()))
}

/// The second step, once both paths are resolved on disk: the model must
/// lie under the models directory (compared component by component).
pub fn check_under_models_dir(canonical: &str, canonical_root: &str) -> (r: Result<(), ModelPathError>)
    ensures
        r is Ok <==> (components(canonical_root@).len() <= components(canonical@).len()
            && components(canonical@).subrange(0, components(canonical_root@).len() as int)
            == components(canonical_root@)),
        r is Err ==> r == Err::<(), ModelPathError>(ModelPathError::OutsideModelsDir),
{
    if path_starts_with(canonical, canonical_root) {
        Ok(())
    } else {
        Err(ModelPathError::OutsideModelsDir)
    }
}

} // verus!
