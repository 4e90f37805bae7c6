//! Named presets and their inheritance.
//!
//! A profile holds a list of named preset configurations. Resolving a preset
//! follows its `parent` references (at most 64 hops), then folds in the
//! `global` preset and finally the built-in defaults.

use crate::config::default_with;
use crate::config::merged;
use crate::config::Config;
use crate::config::ConfigV;
use crate::error::Error;
use crate::error::ErrorKind;
use crate::util::contains_str;
use crate::util::dup_opt_string;
use crate::util::str_eq;
use vstd::pervasive::unreached;
use vstd::prelude::*;

verus! {

/// The deepest chain of `parent` references a resolution will follow.
pub const MAX_INHERIT_DEPTH: usize = 64;

/// A set of named presets together with front-end settings.
pub struct Profile {
    /// Preset name, preset record. The names are pairwise distinct
    /// ([`Profile::wf`]), as in the keyed map a profile is read from.
    pub presets: Vec<(String, Config)>,
    /// The preset that [`Profile::get_current`] resolves.
    pub current: Option<String>,
    /// The preset names offered for interactive selection.
    pub export: Option<Vec<String>>,
    pub log_level: Option<i32>,
    pub gui: Option<String>,
}

/// The first preset named `name`, if any.
pub open spec fn spec_lookup(m: Seq<(Seq<char>, ConfigV)>, name: Seq<char>) -> Option<ConfigV>
    decreases m.len(),
{
    if m.len() == 0 {
        None
    } else if m[0].0 == name {
        Some(m[0].1)
    } else {
        spec_lookup(m.drop_first(), name)
    }
}

/// Follow `parent` references from `cur`, merging each parent in, for at
/// most `fuel` hops. `None` marks a missing parent or an exhausted fuel.
pub open spec fn spec_chain(m: Seq<(Seq<char>, ConfigV)>, cur: ConfigV, fuel: nat) -> Option<
    ConfigV,
>
    decreases fuel,
{
    match cur.parent {
        None => Some(cur),
        Some(pname) => {
            if fuel == 0 {
                None
            } else {
                match spec_lookup(m, pname) {
                    None => None,
                    Some(p) => spec_chain(
                        m,
                        merged(ConfigV { parent: None, ..cur }, p),
                        (fuel - 1) as nat,
                    ),
                }
            }
        },
    }
}

/// Fold the `global` preset into `c`, when one exists.
pub open spec fn spec_after_global(m: Seq<(Seq<char>, ConfigV)>, c: ConfigV) -> ConfigV {
    match spec_lookup(m, "global"@) {
        Some(g) => merged(c, g),
        None => c,
    }
}

/// The fully resolved preset `name`: its inheritance chain followed and the
/// `global` preset folded in, but the built-in defaults not yet applied.
/// `None` marks an unknown preset, a missing parent, or a chain deeper
/// than [`MAX_INHERIT_DEPTH`].
pub open spec fn spec_resolved(m: Seq<(Seq<char>, ConfigV)>, name: Seq<char>) -> Option<ConfigV> {
    match spec_lookup(m, name) {
        None => None,
        Some(c) => match spec_chain(m, c, MAX_INHERIT_DEPTH as nat) {
            None => None,
            Some(rc) => Some(spec_after_global(m, rc)),
        },
    }
}

/// The preset names that appear in the export list, in preset order.
pub open spec fn spec_keys(m: Seq<(Seq<char>, ConfigV)>, export: Seq<Seq<char>>) -> Seq<Seq<char>> {
    m.map_values(|p: (Seq<char>, ConfigV)| p.0).filter(|k: Seq<char>| export.contains(k))
}

/// Every element of a filtered sequence stems from the sequence itself.
proof fn lemma_filter_in_source(s: Seq<Seq<char>>, pred: spec_fn(Seq<char>) -> bool)
    ensures
        forall|k: int| 0 <= k < s.filter(pred).len() ==> s.contains(#[trigger] s.filter(pred)[k]),
    decreases s.len(),
{
    reveal(Seq::filter);
    if s.len() > 0 {
        lemma_filter_in_source(s.drop_last(), pred);
        let sub = s.drop_last().filter(pred);
        assert forall|k: int| 0 <= k < s.filter(pred).len() implies s.contains(
            s.filter(pred)[k],
        ) by {
            if k < sub.len() {
                let x = sub[k];
                assert(s.drop_last().contains(x));
                let j = choose|j: int| 0 <= j < s.drop_last().len() && s.drop_last()[j] == x;
                assert(s[j] == x);
            } else {
                assert(s[s.len() - 1] == s.filter(pred)[k]);
            }
        }
    }
}

/// Filtering a duplicate-free sequence yields a duplicate-free sequence.
proof fn lemma_filter_no_duplicates(s: Seq<Seq<char>>, pred: spec_fn(Seq<char>) -> bool)
    requires
        s.no_duplicates(),
    ensures
        s.filter(pred).no_duplicates(),
    decreases s.len(),
{
    reveal(Seq::filter);
    if s.len() > 0 {
        assert(s.drop_last().no_duplicates());
        lemma_filter_no_duplicates(s.drop_last(), pred);
        let sub = s.drop_last().filter(pred);
        if pred(s.last()) {
            assert(!sub.contains(s.last())) by {
                lemma_filter_in_source(s.drop_last(), pred);
                if sub.contains(s.last()) {
                    let k = choose|k: int| 0 <= k < sub.len() && sub[k] == s.last();
                    assert(s.drop_last().contains(sub[k]));
                    let j = choose|j: int|
                        0 <= j < s.drop_last().len() && s.drop_last()[j] == s.last();
                    assert(s[j] == s[s.len() - 1]);
                }
            }
            assert(s.filter(pred).no_duplicates()) by {
                assert forall|i: int, j: int|
                    0 <= i < s.filter(pred).len() && 0 <= j < s.filter(pred).len() && i
                        != j implies s.filter(pred)[i] != s.filter(pred)[j] by {
                    if i < sub.len() && j < sub.len() {
                    } else if i < sub.len() {
                        assert(!sub.contains(s.last()));
                        assert(sub[i] != s.last());
                    } else if j < sub.len() {
                        assert(!sub.contains(s.last()));
                        assert(sub[j] != s.last());
                    }
                }
            }
        }
    }
}

impl Profile {
    /// The mathematical image of the preset list.
    pub open spec fn presets_v(&self) -> Seq<(Seq<char>, ConfigV)> {
        self.presets@.map_values(|p: (String, Config)| (p.0@, p.1@))
    }

    /// The profile is well formed: its preset names are pairwise distinct.
    /// A profile read from a keyed map has this by construction; name
    /// lookup and the export listing assume it.
    pub open spec fn wf(&self) -> bool {
        forall|i: int, j: int|
            0 <= i < j < self.presets_v().len() ==> self.presets_v()[i].0
                != self.presets_v()[j].0
    }

    /// A reference to the first preset named `name`, if any.
    fn find_preset(&self, name: &str) -> (r: Option<&Config>)
        requires
            self.wf(),
        ensures
            match r {
                None => spec_lookup(self.presets_v(), name@) is None,
                Some(c) => spec_lookup(self.presets_v(), name@) == Some(c@),
            },
    {
        let ghost m = self.presets_v();
        let mut i: usize = 0;
        proof {
            assert(m.skip(0) =~= m);
        }
        while i < self.presets.len()
            invariant
                i <= self.presets.len(),
                m == self.presets_v(),
                m.len() == self.presets.len(),
                spec_lookup(m, name@) == spec_lookup(m.skip(i as int), name@),
            decreases self.presets.len() - i,
        {
            if str_eq(self.presets[i].0.as_str(), name) {
                proof {
                    assert(m.skip(i as int)[0] == m[i as int]);
                }
                return Some(&self.presets[i].1);
            }
            proof {
                assert(m.skip(i as int)[0] == m[i as int]);
                assert(m.skip(i as int).drop_first() =~= m.skip(i as int + 1));
            }
            i = i + 1;
        }
        proof {
            assert(m.skip(i as int).len() == 0);
        }
        None
    }

    /// Resolve the preset `name`: follow its inheritance chain, fold in the
    /// `global` preset, then the built-in defaults. Fails with a `Config`
    /// error when the preset or one of its parents is unknown, or when the
    /// chain runs deeper than [`MAX_INHERIT_DEPTH`].
    pub fn get(&self, name: &str) -> (r: Result<Config, Error>)
        requires
            self.wf(),
        ensures
            r is Ok <==> spec_resolved(self.presets_v(), name@) is Some,
            r matches Ok(c) ==> exists|t: usize|
                1 <= t && c@ == merged(
                    spec_resolved(self.presets_v(), name@)->0,
                    default_with(t),
                ),
            r matches Err(e) ==> e.kind == ErrorKind::Config,
    {
        let ghost m = self.presets_v();
        let mut current = match self.find_preset(name) {
            Some(c) => c.duplicate(),
            None => {
                return Err(Error::new(ErrorKind::Config, "preset not found".to_owned()));
            },
        };
        let ghost base = spec_lookup(m, name@)->0;

        let mut depth: usize = 0;
        while current.parent.is_some()
            invariant
                self.wf(),
                depth <= MAX_INHERIT_DEPTH,
                m == self.presets_v(),
                spec_lookup(m, name@) == Some(base),
                spec_chain(m, base, MAX_INHERIT_DEPTH as nat) == spec_chain(
                    m,
                    current@,
                    (MAX_INHERIT_DEPTH - depth) as nat,
                ),
            decreases MAX_INHERIT_DEPTH - depth,
        {
            let ghost fuel = (MAX_INHERIT_DEPTH - depth) as nat;
            let ghost cur_old = current@;
            depth = depth + 1;
            if depth > MAX_INHERIT_DEPTH {
                proof {
                    assert(fuel == 0);
                    assert(spec_chain(m, base, MAX_INHERIT_DEPTH as nat) is None);
                }
                return Err(Error::new(ErrorKind::Config, "preset inherit depth > 64".to_owned()));
            }
            let pname = dup_opt_string(&current.parent);
            let pname = match pname {
                Some(s) => s,
                None => unreached(),
            };
            current.parent = None;
            match self.find_preset(pname.as_str()) {
                Some(p) => {
                    current.merge(p);
                    proof {
                        assert(current@ == merged(ConfigV { parent: None, ..cur_old }, p@));
                        assert(spec_chain(m, cur_old, fuel) == spec_chain(
                            m,
                            current@,
                            (fuel - 1) as nat,
                        ));
                    }
                },
                None => {
                    proof {
                        assert(spec_chain(m, cur_old, fuel) is None);
                        assert(spec_chain(m, base, MAX_INHERIT_DEPTH as nat) is None);
                    }
                    return Err(Error::new(ErrorKind::Config, "parent preset not found".to_owned()));
                },
            }
        }

        if let Some(g) = self.find_preset("global") {
            current.merge(g);
        }
        let ghost after_global = current@;
        proof {
            assert(after_global == spec_after_global(m, spec_chain(m, base, MAX_INHERIT_DEPTH as nat)->0));
        }

        let d = Config::default();
        let ghost t = d@.threads_count->0;
        current.merge(&d);
        proof {
            assert(1 <= t && current@ == merged(spec_resolved(m, name@)->0, default_with(t)));
        }
        Ok(current)
    }

    /// Resolve the preset that `current` names. Fails with a `Config` error
    /// when `current` is unset, otherwise behaves as [`Profile::get`].
    pub fn get_current(&self) -> (r: Result<Config, Error>)
        requires
            self.wf(),
        ensures
            match self.current {
                None => r is Err,
                Some(cur) => {
                    &&& (r is Ok <==> spec_resolved(self.presets_v(), cur@) is Some)
                    &&& (r matches Ok(c) ==> exists|t: usize|
                        1 <= t && c@ == merged(
                            spec_resolved(self.presets_v(), cur@)->0,
                            default_with(t),
                        ))
                },
            },
            r matches Err(e) ==> e.kind == ErrorKind::Config,
    {
        match &self.current {
            Some(name) => self.get(name.as_str()),
            None => Err(Error::new(ErrorKind::Config, "no current preset selected".to_owned())),
        }
    }

    /// Fill the front-end settings that have defaults: an empty export list
    /// and log level 2.
    pub fn fit(self) -> (r: Profile)
        ensures
            r.presets == self.presets,
            r.current == self.current,
            r.gui == self.gui,
            r.export.deep_view() == if self.export is Some {
                self.export.deep_view()
            } else {
                Some(Seq::<Seq<char>>::empty())
            },
            r.log_level == if self.log_level is Some {
                self.log_level
            } else {
                Some(2i32)
            },
    {
        let export = match self.export {
            Some(e) => Some(e),
            None => Some(Vec::new()),
        };
        let log_level = match self.log_level {
            Some(l) => Some(l),
            None => Some(2),
        };
        proof {
            if self.export is None {
                assert(export.deep_view()->0 =~~= Seq::<Seq<char>>::empty());
            }
        }
        Profile { export, log_level, ..self }
    }

    /// The preset names that the export list offers, in preset order, each
    /// at most once. An unset export list offers nothing.
    pub fn keys(&self) -> (r: Vec<String>)
        requires
            self.wf(),
        ensures
            r.deep_view() == match self.export {
                Some(e) => spec_keys(self.presets_v(), e.deep_view()),
                None => Seq::<Seq<char>>::empty(),
            },
            r.deep_view().no_duplicates(),
    {
        let list = match &self.export {
            Some(e) => e,
            None => {
                let empty: Vec<String> = Vec::new();
                proof {
                    assert(empty.deep_view() =~~= Seq::<Seq<char>>::empty());
                }
                return empty;
            },
        };
        let ghost m = self.presets_v();
        let ghost names = m.map_values(|p: (Seq<char>, ConfigV)| p.0);
        let ghost pred = |k: Seq<char>| list.deep_view().contains(k);
        let mut out: Vec<String> = Vec::new();
        let mut i: usize = 0;
        proof {
            reveal_with_fuel(Seq::<Seq<char>>::filter, 1);
            assert(names.take(0).filter(pred) =~= Seq::<Seq<char>>::empty());
            assert(out.deep_view() =~~= Seq::<Seq<char>>::empty());
        }
        while i < self.presets.len()
            invariant
                i <= self.presets.len(),
                m == self.presets_v(),
                names == m.map_values(|p: (Seq<char>, ConfigV)| p.0),
                pred == (|k: Seq<char>| list.deep_view().contains(k)),
                m.len() == self.presets.len(),
                list.deep_view() == self.export.deep_view()->0,
                out.deep_view() == names.take(i as int).filter(pred),
            decreases self.presets.len() - i,
        {
            let ghost prev = out.deep_view();
            if contains_str(list, self.presets[i].0.as_str()) {
                out.push(self.presets[i].0.clone());
            }
            proof {
                reveal(Seq::<Seq<char>>::filter);
                let taken = names.take(i as int + 1);
                assert(taken.drop_last() =~= names.take(i as int));
                assert(taken.last() == names[i as int]);
                assert(names[i as int] == m[i as int].0);
                if pred(names[i as int]) {
                    assert(out.deep_view() =~~= prev.push(names[i as int]));
                } else {
                    assert(out.deep_view() =~~= prev);
                }
            }
            i = i + 1;
        }
        proof {
            assert(names.take(m.len() as int) =~= names);
            assert(names.no_duplicates()) by {
                assert forall|i: int, j: int|
                    0 <= i < names.len() && 0 <= j < names.len() && i != j implies names[i]
                    != names[j] by {
                    assert(names[i] == m[i].0);
                    assert(names[j] == m[j].0);
                }
            }
            lemma_filter_no_duplicates(names, pred);
        }
        out
    }
}

} // verus!
