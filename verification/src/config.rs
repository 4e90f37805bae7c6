//! The configuration record consumed by the plan builder.
//!
//! Every field is optional; a preset fills some of them and inherits the
//! rest from its parents, then from the built-in defaults, through
//! [`Config::merge`].

use crate::util::dup_opt_string;
use crate::util::dup_opt_vec_string;
use crate::util::pick_opt;
use crate::util::pick_opt_string;
use crate::util::pick_opt_vec_string;
use vstd::prelude::*;

verus! {

/// A user-supplied description of a batch run.
///
/// `program`, `args_template`, `threads_count` and `input_list` must be
/// present by the time the record reaches the plan builder; all other
/// fields have defaults.
#[derive(Clone, Debug)]
pub struct Config {
    pub parent: Option<String>,
    pub threads_count: Option<usize>,
    pub ignore_panic: Option<bool>,
    pub repeat_count: Option<usize>,
    pub pipe: Option<String>,
    pub program: Option<String>,
    pub args_template: Option<String>,
    pub current_dir: Option<String>,
    pub input_list: Option<Vec<String>>,
    pub input_absolute: Option<bool>,
    pub output_dir: Option<String>,
    pub output_absolute: Option<bool>,
    pub output_extension: Option<String>,
    pub output_recursive: Option<bool>,
    pub output_force: Option<bool>,
    pub output_prefix: Option<String>,
    pub output_suffix: Option<String>,
    pub output_serial: Option<bool>,
}

/// The mathematical image of a [`Config`]: strings as character sequences.
#[verifier::ext_equal]
pub struct ConfigV {
    pub parent: Option<Seq<char>>,
    pub threads_count: Option<usize>,
    pub ignore_panic: Option<bool>,
    pub repeat_count: Option<usize>,
    pub pipe: Option<Seq<char>>,
    pub program: Option<Seq<char>>,
    pub args_template: Option<Seq<char>>,
    pub current_dir: Option<Seq<char>>,
    pub input_list: Option<Seq<Seq<char>>>,
    pub input_absolute: Option<bool>,
    pub output_dir: Option<Seq<char>>,
    pub output_absolute: Option<bool>,
    pub output_extension: Option<Seq<char>>,
    pub output_recursive: Option<bool>,
    pub output_force: Option<bool>,
    pub output_prefix: Option<Seq<char>>,
    pub output_suffix: Option<Seq<char>>,
    pub output_serial: Option<bool>,
}

impl View for Config {
    type V = ConfigV;

    open spec fn view(&self) -> ConfigV {
        ConfigV {
            parent: self.parent.deep_view(),
            threads_count: self.threads_count,
            ignore_panic: self.ignore_panic,
            repeat_count: self.repeat_count,
            pipe: self.pipe.deep_view(),
            program: self.program.deep_view(),
            args_template: self.args_template.deep_view(),
            current_dir: self.current_dir.deep_view(),
            input_list: self.input_list.deep_view(),
            input_absolute: self.input_absolute,
            output_dir: self.output_dir.deep_view(),
            output_absolute: self.output_absolute,
            output_extension: self.output_extension.deep_view(),
            output_recursive: self.output_recursive,
            output_force: self.output_force,
            output_prefix: self.output_prefix.deep_view(),
            output_suffix: self.output_suffix.deep_view(),
            output_serial: self.output_serial,
        }
    }
}

/// The record obtained by filling every unset field of `child` from
/// `parent`. Fields already set in `child` win.
pub open spec fn merged(child: ConfigV, parent: ConfigV) -> ConfigV {
    ConfigV {
        parent: if child.parent is Some { child.parent } else { parent.parent },
        threads_count: if child.threads_count is Some {
            child.threads_count
        } else {
            parent.threads_count
        },
        ignore_panic: if child.ignore_panic is Some {
            child.ignore_panic
        } else {
            parent.ignore_panic
        },
        repeat_count: if child.repeat_count is Some {
            child.repeat_count
        } else {
            parent.repeat_count
        },
        pipe: if child.pipe is Some { child.pipe } else { parent.pipe },
        program: if child.program is Some { child.program } else { parent.program },
        args_template: if child.args_template is Some {
            child.args_template
        } else {
            parent.args_template
        },
        current_dir: if child.current_dir is Some {
            child.current_dir
        } else {
            parent.current_dir
        },
        input_list: if child.input_list is Some { child.input_list } else { parent.input_list },
        input_absolute: if child.input_absolute is Some {
            child.input_absolute
        } else {
            parent.input_absolute
        },
        output_dir: if child.output_dir is Some { child.output_dir } else { parent.output_dir },
        output_absolute: if child.output_absolute is Some {
            child.output_absolute
        } else {
            parent.output_absolute
        },
        output_extension: if child.output_extension is Some {
            child.output_extension
        } else {
            parent.output_extension
        },
        output_recursive: if child.output_recursive is Some {
            child.output_recursive
        } else {
            parent.output_recursive
        },
        output_force: if child.output_force is Some {
            child.output_force
        } else {
            parent.output_force
        },
        output_prefix: if child.output_prefix is Some {
            child.output_prefix
        } else {
            parent.output_prefix
        },
        output_suffix: if child.output_suffix is Some {
            child.output_suffix
        } else {
            parent.output_suffix
        },
        output_serial: if child.output_serial is Some {
            child.output_serial
        } else {
            parent.output_serial
        },
    }
}

/// The built-in defaults, parameterized by the worker count that
/// [`Config::default`] reads from the machine.
pub open spec fn default_with(threads: usize) -> ConfigV {
    ConfigV {
        parent: None,
        threads_count: Some(threads),
        ignore_panic: Some(false),
        repeat_count: Some(1),
        pipe: None,
        program: None,
        args_template: Some(Seq::<char>::empty()),
        current_dir: None,
        input_list: Some(Seq::<Seq<char>>::empty()),
        input_absolute: Some(false),
        output_dir: None,
        output_absolute: Some(false),
        output_extension: None,
        output_recursive: Some(false),
        output_force: Some(false),
        output_prefix: None,
        output_suffix: None,
        output_serial: Some(false),
    }
}

/// Relies on num_cpus::get: the number of logical processors available to
/// this process; its documentation promises at least 1.
#[verifier::external_body]
fn cpu_count() -> (r: usize)
    ensures
        r >= 1,
{
    num_cpus::get()
}

impl Config {
    /// Fill every unset field of `self` from `parent`.
    pub fn merge(&mut self, parent: &Config)
        ensures
            final(self)@ == merged(old(self)@, parent@),
    {
        let r = Config {
            parent: pick_opt_string(&self.parent, &parent.parent),
            threads_count: pick_opt(&self.threads_count, &parent.threads_count),
            ignore_panic: pick_opt(&self.ignore_panic, &parent.ignore_panic),
            repeat_count: pick_opt(&self.repeat_count, &parent.repeat_count),
            pipe: pick_opt_string(&self.pipe, &parent.pipe),
            program: pick_opt_string(&self.program, &parent.program),
            args_template: pick_opt_string(&self.args_template, &parent.args_template),
            current_dir: pick_opt_string(&self.current_dir, &parent.current_dir),
            input_list: pick_opt_vec_string(&self.input_list, &parent.input_list),
            input_absolute: pick_opt(&self.input_absolute, &parent.input_absolute),
            output_dir: pick_opt_string(&self.output_dir, &parent.output_dir),
            output_absolute: pick_opt(&self.output_absolute, &parent.output_absolute),
            output_extension: pick_opt_string(&self.output_extension, &parent.output_extension),
            output_recursive: pick_opt(&self.output_recursive, &parent.output_recursive),
            output_force: pick_opt(&self.output_force, &parent.output_force),
            output_prefix: pick_opt_string(&self.output_prefix, &parent.output_prefix),
            output_suffix: pick_opt_string(&self.output_suffix, &parent.output_suffix),
            output_serial: pick_opt(&self.output_serial, &parent.output_serial),
        };
        *self = r;
        proof {
            assert(self@ =~= merged(old(self)@, parent@));
        }
    }

    /// Copy the whole record, preserving its view.
    pub fn duplicate(&self) -> (r: Config)
        ensures
            r@ == self@,
    {
        Config {
            parent: dup_opt_string(&self.parent),
            threads_count: self.threads_count,
            ignore_panic: self.ignore_panic,
            repeat_count: self.repeat_count,
            pipe: dup_opt_string(&self.pipe),
            program: dup_opt_string(&self.program),
            args_template: dup_opt_string(&self.args_template),
            current_dir: dup_opt_string(&self.current_dir),
            input_list: dup_opt_vec_string(&self.input_list),
            input_absolute: self.input_absolute,
            output_dir: dup_opt_string(&self.output_dir),
            output_absolute: self.output_absolute,
            output_extension: dup_opt_string(&self.output_extension),
            output_recursive: self.output_recursive,
            output_force: self.output_force,
            output_prefix: dup_opt_string(&self.output_prefix),
            output_suffix: dup_opt_string(&self.output_suffix),
            output_serial: self.output_serial,
        }
    }
}

impl Default for Config {
    /// The built-in defaults: one repetition, no panic tolerance, discarded
    /// child output, and as many workers as the machine has processors.
    fn default() -> (r: Config)
        ensures
            r@.threads_count is Some,
            r@.threads_count->0 >= 1,
            r@ == default_with(r@.threads_count->0),
    {
        let threads = cpu_count();
        let r = Config {
            parent: None,
            threads_count: Some(threads),
            ignore_panic: Some(false),
            repeat_count: Some(1),
            pipe: None,
            program: None,
            args_template: Some(String::new()),
            current_dir: None,
            input_list: Some(Vec::new()),
            input_absolute: Some(false),
            output_dir: None,
            output_absolute: Some(false),
            output_extension: None,
            output_recursive: Some(false),
            output_force: Some(false),
            output_prefix: None,
            output_suffix: None,
            output_serial: Some(false),
        };
        proof {
            assert(r@ =~~= default_with(threads));
        }
        r
    }
}

} // verus!
