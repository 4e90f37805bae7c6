//! The plan builder: from a configuration and the expanded input files to
//! the ordered sequence of invocations.
//!
//! The builder is pure: reading directories, deleting files and creating
//! directories are left to the embedding program. It receives the input
//! files already expanded, and hands back, besides the invocations, the
//! directories to create (for `output_recursive`) and the files to delete
//! (for `output_force`), in input order.

use crate::args::spec_split_args;
use crate::args::split_args;
use crate::args::subst_args;
use crate::args::substitute_args;
use crate::config::Config;
use crate::config::ConfigV;
use crate::error::Error;
use crate::error::ErrorKind;
use crate::pathutil::ext_of;
use crate::pathutil::file_name;
use crate::pathutil::file_name_of;
use crate::pathutil::is_abs;
use crate::pathutil::is_abs_path;
use crate::pathutil::join;
use crate::pathutil::join_path;
use crate::pathutil::parent_dir;
use crate::pathutil::parent_dir_of;
use crate::pathutil::set_extension;
use crate::pathutil::set_extension_of;
use crate::pathutil::stem_len_of;
use crate::pathutil::stem_of;
use crate::pathutil::strip_path_prefix;
use crate::pathutil::strip_prefix_of;
use crate::pathutil::with_file_name;
use crate::pathutil::with_file_name_of;
use crate::util::dup_opt_string;
use vstd::prelude::*;

verus! {

/// One concrete command: program, arguments, optional working directory.
#[derive(Debug)]
pub struct Invocation {
    pub program: String,
    pub args: Vec<String>,
    pub current_dir: Option<String>,
}

/// The mathematical image of an [`Invocation`].
#[verifier::ext_equal]
pub struct InvocationV {
    pub program: Seq<char>,
    pub args: Seq<Seq<char>>,
    pub current_dir: Option<Seq<char>>,
}

impl View for Invocation {
    type V = InvocationV;

    open spec fn view(&self) -> InvocationV {
        InvocationV {
            program: self.program@,
            args: self.args.deep_view(),
            current_dir: self.current_dir.deep_view(),
        }
    }
}

impl DeepView for Invocation {
    type V = InvocationV;

    open spec fn deep_view(&self) -> InvocationV {
        self.view()
    }
}

impl Invocation {
    /// Copy the invocation, preserving its view.
    pub fn duplicate(&self) -> (r: Invocation)
        ensures
            r@ == self@,
    {
        let r = Invocation {
            program: self.program.clone(),
            args: crate::util::dup_vec_string(&self.args),
            current_dir: dup_opt_string(&self.current_dir),
        };
        proof {
            assert(r@ =~= self@);
        }
        r
    }
}

/// What a configuration expands to: the invocations, and the filesystem
/// preparations the embedding program performs before running them.
#[derive(Debug)]
pub struct Plan {
    /// The invocations, in emission order: inputs in the given order, each
    /// repeated `repeat_count` times with repetition numbers `1..`.
    pub invocations: Vec<Invocation>,
    /// With `output_recursive`: each input's output directory, to create.
    pub dirs_to_create: Vec<String>,
    /// With `output_force`: each input's output file, to delete beforehand.
    pub files_to_delete: Vec<String>,
}

/// How many times each input is emitted; one when unset.
pub open spec fn spec_repeat(cfg: ConfigV) -> nat {
    match cfg.repeat_count {
        Some(r) => r as nat,
        None => 1,
    }
}

/// The file name an output gets before its extension: prefix, stem, suffix.
pub open spec fn spec_stem_name(cfg: ConfigV, input: Seq<char>) -> Seq<char> {
    let stem = stem_of(file_name(input));
    let pre = match cfg.output_prefix {
        Some(p) => p,
        None => Seq::<char>::empty(),
    };
    let suf = match cfg.output_suffix {
        Some(s) => s,
        None => Seq::<char>::empty(),
    };
    pre + stem + suf
}

/// The directory an input's output goes under: `output_dir`, else the
/// input's own directory.
pub open spec fn spec_base_dir(cfg: ConfigV, input: Seq<char>) -> Seq<char> {
    match cfg.output_dir {
        Some(d) => d,
        None => parent_dir(input),
    }
}

/// The output path before its extension is applied. `None` marks a broken
/// `output_recursive` constraint: the input list is not a single entry, or
/// the input does not lie under it.
pub open spec fn spec_raw_output(cfg: ConfigV, input: Seq<char>) -> Option<Seq<char>> {
    let name = spec_stem_name(cfg, input);
    let base = spec_base_dir(cfg, input);
    if cfg.output_recursive == Some(true) {
        if cfg.input_list is Some && cfg.input_list->0.len() == 1 {
            match strip_path_prefix(input, cfg.input_list->0[0]) {
                Some(rel) => Some(with_file_name(join(base, rel), name)),
                None => None,
            }
        } else {
            None
        }
    } else {
        Some(join(base, name))
    }
}

/// The final output path for an input: extension applied (the configured
/// one, else the input's own), then made absolute against `cwd` on demand.
pub open spec fn spec_output_path(cfg: ConfigV, cwd: Seq<char>, input: Seq<char>) -> Option<
    Seq<char>,
> {
    match spec_raw_output(cfg, input) {
        None => None,
        Some(o) => {
            let o1 = match cfg.output_extension {
                Some(e) => set_extension(o, e),
                None => match ext_of(file_name(input)) {
                    Some(e) => set_extension(o, e),
                    None => o,
                },
            };
            let o2 = if cfg.output_absolute == Some(true) && !is_abs(o1) {
                join(cwd, o1)
            } else {
                o1
            };
            Some(o2)
        },
    }
}

/// The input path as handed to the child: made absolute on demand.
pub open spec fn spec_input_path(cfg: ConfigV, cwd: Seq<char>, input: Seq<char>) -> Seq<char> {
    if cfg.input_absolute == Some(true) && !is_abs(input) {
        join(cwd, input)
    } else {
        input
    }
}

/// The invocation for one input and one repetition number.
pub open spec fn spec_invocation(
    cfg: ConfigV,
    cwd: Seq<char>,
    tokens: Seq<Seq<char>>,
    input: Seq<char>,
    n: nat,
) -> InvocationV {
    InvocationV {
        program: cfg.program->0,
        args: subst_args(
            tokens,
            spec_input_path(cfg, cwd, input),
            spec_output_path(cfg, cwd, input)->0,
            cfg.output_serial == Some(true),
            n,
        ),
        current_dir: cfg.current_dir,
    }
}

/// The invocations of one input: repetition numbers `1..=repeat_count`.
pub open spec fn spec_row(
    cfg: ConfigV,
    cwd: Seq<char>,
    tokens: Seq<Seq<char>>,
    input: Seq<char>,
) -> Seq<InvocationV> {
    Seq::new(spec_repeat(cfg), |k: int| spec_invocation(cfg, cwd, tokens, input, (k + 1) as nat))
}

/// The whole plan's invocations: every input in order, each one's row.
pub open spec fn spec_invocations(
    cfg: ConfigV,
    cwd: Seq<char>,
    tokens: Seq<Seq<char>>,
    inputs: Seq<Seq<char>>,
) -> Seq<InvocationV>
    decreases inputs.len(),
{
    if inputs.len() == 0 {
        Seq::<InvocationV>::empty()
    } else {
        spec_row(cfg, cwd, tokens, inputs[0]) + spec_invocations(cfg, cwd, tokens, inputs.drop_first())
    }
}

/// The directories the embedding program creates before spawning.
pub open spec fn spec_dirs(cfg: ConfigV, inputs: Seq<Seq<char>>) -> Seq<Seq<char>> {
    if cfg.output_recursive == Some(true) {
        Seq::new(inputs.len(), |p: int| parent_dir(spec_raw_output(cfg, inputs[p])->0))
    } else {
        Seq::<Seq<char>>::empty()
    }
}

/// The files the embedding program deletes before spawning.
pub open spec fn spec_deletes(cfg: ConfigV, cwd: Seq<char>, inputs: Seq<Seq<char>>) -> Seq<
    Seq<char>,
> {
    if cfg.output_force == Some(true) {
        Seq::new(inputs.len(), |p: int| spec_output_path(cfg, cwd, inputs[p])->0)
    } else {
        Seq::<Seq<char>>::empty()
    }
}

/// When the builder fails, and with a `Config` error: a missing required
/// field, an unclosed quotation, a broken `output_recursive` constraint, or
/// no invocation at all.
pub open spec fn spec_plan_error(cfg: ConfigV, cwd: Seq<char>, inputs: Seq<Seq<char>>) -> bool {
    ||| cfg.program is None
    ||| cfg.args_template is None
    ||| spec_split_args(cfg.args_template->0) is None
    ||| exists|p: int| 0 <= p < inputs.len() && spec_raw_output(cfg, inputs[p]) is None
    ||| inputs.len() * spec_repeat(cfg) == 0
}

/// Appending one input appends its row.
pub proof fn lemma_invocations_snoc(
    cfg: ConfigV,
    cwd: Seq<char>,
    tokens: Seq<Seq<char>>,
    inputs: Seq<Seq<char>>,
    x: Seq<char>,
)
    ensures
        spec_invocations(cfg, cwd, tokens, inputs.push(x)) == spec_invocations(
            cfg,
            cwd,
            tokens,
            inputs,
        ) + spec_row(cfg, cwd, tokens, x),
    decreases inputs.len(),
{
    if inputs.len() == 0 {
        assert(inputs.push(x).drop_first() =~= Seq::<Seq<char>>::empty());
        assert(inputs.push(x)[0] == x);
        assert(spec_invocations(cfg, cwd, tokens, Seq::<Seq<char>>::empty())
            == Seq::<InvocationV>::empty());
        assert(spec_invocations(cfg, cwd, tokens, inputs.push(x)) == spec_row(cfg, cwd, tokens, x)
            + Seq::<InvocationV>::empty());
        assert(spec_invocations(cfg, cwd, tokens, inputs.push(x)) =~= spec_invocations(
            cfg,
            cwd,
            tokens,
            inputs,
        ) + spec_row(cfg, cwd, tokens, x));
    } else {
        assert(inputs.push(x).drop_first() =~= inputs.drop_first().push(x));
        assert(inputs.push(x)[0] == inputs[0]);
        lemma_invocations_snoc(cfg, cwd, tokens, inputs.drop_first(), x);
        assert(spec_invocations(cfg, cwd, tokens, inputs.push(x)) == spec_row(
            cfg,
            cwd,
            tokens,
            inputs[0],
        ) + (spec_invocations(cfg, cwd, tokens, inputs.drop_first()) + spec_row(
            cfg,
            cwd,
            tokens,
            x,
        )));
        assert(spec_invocations(cfg, cwd, tokens, inputs.push(x)) =~= spec_invocations(
            cfg,
            cwd,
            tokens,
            inputs,
        ) + spec_row(cfg, cwd, tokens, x));
    }
}

/// A plan holds one invocation per input and repetition.
pub proof fn lemma_invocations_len(
    cfg: ConfigV,
    cwd: Seq<char>,
    tokens: Seq<Seq<char>>,
    inputs: Seq<Seq<char>>,
)
    ensures
        spec_invocations(cfg, cwd, tokens, inputs).len() == inputs.len() * spec_repeat(cfg),
    decreases inputs.len(),
{
    if inputs.len() == 0 {
    } else {
        lemma_invocations_len(cfg, cwd, tokens, inputs.drop_first());
        assert(inputs.len() * spec_repeat(cfg) == spec_repeat(cfg) + (inputs.len() - 1)
            * spec_repeat(cfg)) by (nonlinear_arith);
    }
}

/// The invocation at flat index `p * repeat + k` is input `p`'s repetition
/// `k + 1`.
pub proof fn lemma_invocations_index(
    cfg: ConfigV,
    cwd: Seq<char>,
    tokens: Seq<Seq<char>>,
    inputs: Seq<Seq<char>>,
    p: int,
    k: int,
)
    requires
        0 <= p < inputs.len(),
        0 <= k < spec_repeat(cfg),
    ensures
        spec_invocations(cfg, cwd, tokens, inputs)[p * spec_repeat(cfg) + k] == spec_invocation(
            cfg,
            cwd,
            tokens,
            inputs[p],
            (k + 1) as nat,
        ),
    decreases p,
{
    let r = spec_repeat(cfg) as int;
    lemma_invocations_len(cfg, cwd, tokens, inputs.drop_first());
    let whole = spec_invocations(cfg, cwd, tokens, inputs);
    let head = spec_row(cfg, cwd, tokens, inputs[0]);
    let rest = spec_invocations(cfg, cwd, tokens, inputs.drop_first());
    assert(whole == head + rest);
    assert(head.len() == r);
    if p == 0 {
        assert(p * r + k == k) by (nonlinear_arith)
            requires
                p == 0,
        ;
        assert(whole[k] == head[k]);
        assert(head[k] == spec_invocation(cfg, cwd, tokens, inputs[0], (k + 1) as nat));
    } else {
        lemma_invocations_index(cfg, cwd, tokens, inputs.drop_first(), p - 1, k);
        assert(p * r + k - r == (p - 1) * r + k) by (nonlinear_arith);
        assert(0 <= (p - 1) * r + k < (inputs.len() - 1) * r) by (nonlinear_arith)
            requires
                1 <= p,
                p < inputs.len(),
                0 <= k < r,
        ;
        assert(r <= p * r + k) by (nonlinear_arith)
            requires
                1 <= p,
                0 <= k,
                0 <= r,
        ;
        assert(whole[p * r + k] == rest[p * r + k - r]);
        assert(inputs.drop_first()[p - 1] == inputs[p]);
    }
}

/// The output path of one input under `cfg`, mirroring
/// [`spec_output_path`]; `Err` marks a broken `output_recursive`
/// constraint. Also hands back the directory to create, with
/// `output_recursive`.
fn derive_output_path(cfg: &Config, cwd: &str, input: &str) -> (r: Result<
    (String, Option<String>),
    Error,
>)
    ensures
        match r {
            Ok((out, dir)) => {
                &&& spec_raw_output(cfg@, input@) is Some
                &&& spec_output_path(cfg@, cwd@, input@) == Some(out@)
                &&& match dir {
                    Some(d) => cfg@.output_recursive == Some(true) && d@ == parent_dir(
                        spec_raw_output(cfg@, input@)->0,
                    ),
                    None => !(cfg@.output_recursive == Some(true)),
                }
            },
            Err(e) => spec_raw_output(cfg@, input@) is None && e.kind == ErrorKind::Config,
        },
{
    let f = file_name_of(input);
    proof {
        crate::pathutil::lemma_rfind_bounds(f@, '.');
    }
    let k = stem_len_of(f.as_str());
    let stem = f.as_str().substring_char(0, k);
    let pre: String = match &cfg.output_prefix {
        Some(p) => p.clone(),
        None => String::new(),
    };
    let name = match &cfg.output_suffix {
        Some(s) => pre.concat(stem).concat(s.as_str()),
        None => pre.concat(stem),
    };
    proof {
        assert(name@ == spec_stem_name(cfg@, input@));
    }
    let base: String = match &cfg.output_dir {
        Some(d) => d.clone(),
        None => parent_dir_of(input),
    };

    let recursive = match cfg.output_recursive {
        Some(b) => b,
        None => false,
    };
    let out0: String;
    let mut dir: Option<String> = None;
    if recursive {
        let first = match &cfg.input_list {
            Some(list) => {
                if list.len() == 1 {
                    &list[0]
                } else {
                    return Err(
                        Error::new(
                            ErrorKind::Config,
                            "input_list must contain only 1 item while output_recursive".to_owned(),
                        ),
                    );
                }
            },
            None => {
                return Err(
                    Error::new(
                        ErrorKind::Config,
                        "input_list must contain only 1 item while output_recursive".to_owned(),
                    ),
                );
            },
        };
        let rel = match strip_prefix_of(input, first.as_str()) {
            Some(rel) => rel,
            None => {
                return Err(
                    Error::new(
                        ErrorKind::Config,
                        "input does not lie under the input_list entry".to_owned(),
                    ),
                );
            },
        };
        let joined = join_path(base.as_str(), rel.as_str());
        out0 = with_file_name_of(joined.as_str(), name.as_str());
        dir = Some(parent_dir_of(out0.as_str()));
    } else {
        out0 = join_path(base.as_str(), name.as_str());
    }
    proof {
        assert(spec_raw_output(cfg@, input@) == Some(out0@));
    }

    let fl = f.as_str().unicode_len();
    proof {
        let d = crate::pathutil::rfind(f@, '.');
        assert(k < fl <==> ext_of(f@) is Some);
        if k < fl {
            assert(ext_of(f@) == Some(f@.skip(d + 1)));
            assert(d + 1 == k + 1);
        }
    }
    let out1: String = match &cfg.output_extension {
        Some(e) => set_extension_of(out0.as_str(), e.as_str()),
        None => {
            if k < fl {
                let e = f.as_str().substring_char(k + 1, fl);
                proof {
                    assert(e@ =~= f@.skip(k as int + 1));
                    assert(ext_of(file_name(input@)) == Some(e@));
                }
                set_extension_of(out0.as_str(), e)
            } else {
                out0
            }
        },
    };

    let out_abs = match cfg.output_absolute {
        Some(b) => b,
        None => false,
    };
    let out2: String = if out_abs && !is_abs_path(out1.as_str()) {
        join_path(cwd, out1.as_str())
    } else {
        out1
    };
    proof {
        assert(spec_output_path(cfg@, cwd@, input@) == Some(out2@));
    }
    Ok((out2, dir))
}

/// Build the plan for `cfg` over the already-expanded `input_files`,
/// against the working directory `cwd`.
///
/// Exactly these configurations are rejected, all as `Config` errors: a
/// missing `program` or `args_template`, an unclosed quotation in the
/// template, `output_recursive` without a single-entry `input_list` that
/// every input lies under, and a plan of zero invocations (no input files,
/// or `repeat_count` zero).
pub fn build_plan(cfg: &Config, input_files: &Vec<String>, cwd: &str) -> (r: Result<Plan, Error>)
    requires
        input_files@.len() * spec_repeat(cfg@) <= usize::MAX,
    ensures
        r is Ok <==> !spec_plan_error(cfg@, cwd@, input_files.deep_view()),
        r matches Err(e) ==> e.kind == ErrorKind::Config,
        r matches Ok(plan) ==> {
            let tokens = spec_split_args(cfg@.args_template->0)->0;
            let inputs = input_files.deep_view();
            &&& plan.invocations.deep_view() == spec_invocations(cfg@, cwd@, tokens, inputs)
            &&& plan.invocations@.len() == inputs.len() * spec_repeat(cfg@)
            &&& plan.dirs_to_create.deep_view() == spec_dirs(cfg@, inputs)
            &&& plan.files_to_delete.deep_view() == spec_deletes(cfg@, cwd@, inputs)
        },
{
    let ghost inputs = input_files.deep_view();
    let program: &String = match &cfg.program {
        Some(p) => p,
        None => {
            return Err(Error::new(ErrorKind::Config, "program is required".to_owned()));
        },
    };
    let template: &String = match &cfg.args_template {
        Some(t) => t,
        None => {
            return Err(Error::new(ErrorKind::Config, "args_template is required".to_owned()));
        },
    };
    let tokens = match split_args(template.as_str()) {
        Ok(t) => t,
        Err(e) => {
            return Err(e);
        },
    };
    let ghost tv = tokens.deep_view();
    let repeat: usize = match cfg.repeat_count {
        Some(n) => n,
        None => 1,
    };
    let serial = match cfg.output_serial {
        Some(b) => b,
        None => false,
    };
    let force = match cfg.output_force {
        Some(b) => b,
        None => false,
    };
    let in_abs = match cfg.input_absolute {
        Some(b) => b,
        None => false,
    };

    let mut ins: Vec<String> = Vec::new();
    let mut outs: Vec<String> = Vec::new();
    let mut dirs: Vec<String> = Vec::new();
    let mut dels: Vec<String> = Vec::new();
    let mut p: usize = 0;
    while p < input_files.len()
        invariant
            p <= input_files.len(),
            inputs == input_files.deep_view(),
            inputs.len() == input_files@.len(),
            ins@.len() == p,
            outs@.len() == p,
            forall|j: int| 0 <= j < p ==> spec_raw_output(cfg@, inputs[j]) is Some,
            forall|j: int|
                0 <= j < p ==> ins@[j]@ == spec_input_path(cfg@, cwd@, inputs[j]),
            forall|j: int|
                0 <= j < p ==> Some(outs@[j]@) == spec_output_path(cfg@, cwd@, inputs[j]),
            in_abs == (cfg@.input_absolute == Some(true)),
            force == (cfg@.output_force == Some(true)),
            dirs@.len() == if cfg@.output_recursive == Some(true) {
                p as int
            } else {
                0
            },
            forall|j: int|
                0 <= j < dirs@.len() ==> dirs@[j]@ == parent_dir(
                    spec_raw_output(cfg@, inputs[j])->0,
                ),
            dels@.len() == if cfg@.output_force == Some(true) {
                p as int
            } else {
                0
            },
            forall|j: int|
                0 <= j < dels@.len() ==> dels@[j]@ == spec_output_path(cfg@, cwd@, inputs[j])->0,
        decreases input_files.len() - p,
    {
        let input = &input_files[p];
        let (out, dir) = match derive_output_path(cfg, cwd, input.as_str()) {
            Ok(v) => v,
            Err(e) => {
                proof {
                    assert(spec_raw_output(cfg@, inputs[p as int]) is None);
                    assert(spec_plan_error(cfg@, cwd@, inputs));
                }
                return Err(e);
            },
        };
        let in_path: String = if in_abs && !is_abs_path(input.as_str()) {
            join_path(cwd, input.as_str())
        } else {
            input.clone()
        };
        if force {
            dels.push(out.clone());
        }
        if let Some(d) = dir {
            dirs.push(d);
        }
        ins.push(in_path);
        outs.push(out);
        p = p + 1;
    }

    let mut invocations: Vec<Invocation> = Vec::new();
    let mut q: usize = 0;
    proof {
        assert(invocations.deep_view() =~= spec_invocations(cfg@, cwd@, tv, inputs.take(0)));
    }
    while q < input_files.len()
        invariant
            q <= input_files.len(),
            inputs == input_files.deep_view(),
            inputs.len() == input_files@.len(),
            inputs.len() * spec_repeat(cfg@) <= usize::MAX,
            repeat as nat == spec_repeat(cfg@),
            serial == (cfg@.output_serial == Some(true)),
            program@ == cfg@.program->0,
            tv == tokens.deep_view(),
            ins@.len() == inputs.len(),
            outs@.len() == inputs.len(),
            forall|j: int|
                0 <= j < inputs.len() ==> ins@[j]@ == spec_input_path(cfg@, cwd@, inputs[j]),
            forall|j: int|
                0 <= j < inputs.len() ==> Some(outs@[j]@) == spec_output_path(
                    cfg@,
                    cwd@,
                    inputs[j],
                ),
            invocations.deep_view() == spec_invocations(cfg@, cwd@, tv, inputs.take(q as int)),
        decreases input_files.len() - q,
    {
        let ghost row = spec_row(cfg@, cwd@, tv, inputs[q as int]);
        let ghost before = invocations.deep_view();
        let mut k: usize = 0;
        proof {
            lemma_invocations_len(cfg@, cwd@, tv, inputs.take(q as int));
            let r = spec_repeat(cfg@) as int;
            let n = inputs.len() as int;
            assert(inputs.take(q as int).len() == q as int);
            assert(q as int * r + r <= n * r) by (nonlinear_arith)
                requires
                    q as int + 1 <= n,
                    0 <= r,
            ;
            assert(before.len() == q as int * r);
            assert(before + row.take(0) =~= before);
        }
        while k < repeat
            invariant
                k <= repeat,
                q < inputs.len(),
                inputs == input_files.deep_view(),
                inputs.len() == input_files@.len(),
                repeat as nat == spec_repeat(cfg@),
                serial == (cfg@.output_serial == Some(true)),
                program@ == cfg@.program->0,
                tv == tokens.deep_view(),
                row == spec_row(cfg@, cwd@, tv, inputs[q as int]),
                before == spec_invocations(cfg@, cwd@, tv, inputs.take(q as int)),
                ins@.len() == inputs.len(),
                outs@.len() == inputs.len(),
                ins@[q as int]@ == spec_input_path(cfg@, cwd@, inputs[q as int]),
                Some(outs@[q as int]@) == spec_output_path(cfg@, cwd@, inputs[q as int]),
                invocations.deep_view() == before + row.take(k as int),
                invocations@.len() + (repeat - k) <= usize::MAX,
            decreases repeat - k,
        {
            let args = substitute_args(&tokens, ins[q].as_str(), outs[q].as_str(), serial, k + 1);
            let inv = Invocation {
                program: program.clone(),
                args,
                current_dir: dup_opt_string(&cfg.current_dir),
            };
            let ghost prevv = invocations@;
            let ghost prevd = invocations.deep_view();
            let ghost invv = inv@;
            proof {
                assert(invv =~~= spec_invocation(cfg@, cwd@, tv, inputs[q as int], (k + 1) as nat));
                assert(row[k as int] == invv);
            }
            invocations.push(inv);
            proof {
                let n0 = prevd.len();
                assert(invocations@ == prevv.push(inv));
                assert forall|j: int| 0 <= j < n0 + 1 implies invocations.deep_view()[j] == (before
                    + row.take(k as int + 1))[j] by {
                    if j < n0 {
                        assert(invocations@[j] == prevv[j]);
                        assert(prevd[j] == prevv[j]@);
                        assert((before + row.take(k as int))[j] == (before + row.take(
                            k as int + 1,
                        ))[j]);
                    } else {
                        assert(invocations@[j]@ == invv);
                        assert((before + row.take(k as int + 1))[j] == row[k as int]);
                    }
                }
                assert(invocations.deep_view() =~= before + row.take(k as int + 1));
            }
            k = k + 1;
        }
        proof {
            assert(row.take(repeat as int) =~= row);
            assert(inputs.take(q as int).push(inputs[q as int]) =~= inputs.take(q as int + 1));
            lemma_invocations_snoc(cfg@, cwd@, tv, inputs.take(q as int), inputs[q as int]);
        }
        q = q + 1;
    }
    proof {
        assert(inputs.take(inputs.len() as int) =~= inputs);
        lemma_invocations_len(cfg@, cwd@, tv, inputs);
    }

    if invocations.len() == 0 {
        return Err(
            Error::new(ErrorKind::Config, "current config did not generate any commands".to_owned()),
        );
    }

    let plan = Plan { invocations, dirs_to_create: dirs, files_to_delete: dels };
    proof {
        assert(plan.dirs_to_create.deep_view() =~~= spec_dirs(cfg@, inputs));
        assert(plan.files_to_delete.deep_view() =~~= spec_deletes(cfg@, cwd@, inputs));
    }
    Ok(plan)
}

} // verus!
