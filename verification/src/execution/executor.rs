//! The script executor's state: the last status, the options, the traps,
//! the arrays; the shell variables, seen by the shell alone unless
//! exported; the names promoted to the environment; and the stack of
//! argument lists, the script's own at the bottom and one more for each
//! function call or sourced file that was given arguments. The environment
//! itself is the caller's: it is handed in as a snapshot, and what to set
//! in it is handed back.

use vstd::prelude::*;

use crate::config::options::ShellOptions;
use crate::expansion::expander::{Expander, ExpanderView};
use crate::expansion::fields::strings_view;
use crate::process::job::{JobTable, JobView};
use crate::text::copy_string;
use crate::vars::{ArrayTable, VarTable};

verus! {

/// The script executor's state.
pub struct Executor {
    /// The status of the last command.
    pub last_status: i32,
    /// The options that `set` switches.
    pub options: ShellOptions,
    /// The commands registered by `trap`, by signal name.
    pub traps: VarTable,
    /// The arrays.
    pub arrays: ArrayTable,
    /// The aliases.
    pub aliases: VarTable,
    /// The jobs started in the background or stopped.
    pub jobs: JobTable,
    /// The argument lists, the script's own first.
    pub contexts: Vec<Vec<String>>,
    /// The shell variables.
    pub locals: VarTable,
    /// The names promoted to the environment, as keys.
    pub exported: VarTable,
}

/// The value of `key`: the shell variable where there is one, otherwise
/// the environment's.
pub open spec fn lookup(
    locals: Map<Seq<char>, Seq<char>>,
    env: Map<Seq<char>, Seq<char>>,
    key: Seq<char>,
) -> Option<Seq<char>> {
    if locals.contains_key(key) {
        Some(locals[key])
    } else if env.contains_key(key) {
        Some(env[key])
    } else {
        None
    }
}

impl Executor {
    /// The argument lists, the script's own first.
    pub open spec fn contexts(&self) -> Seq<Seq<Seq<char>>> {
        self.contexts@.map_values(|c: Vec<String>| strings_view(c@))
    }

    /// The shell variables.
    pub open spec fn locals(&self) -> Map<Seq<char>, Seq<char>> {
        self.locals.view()
    }

    /// The names promoted to the environment.
    pub open spec fn exported(&self) -> Set<Seq<char>> {
        self.exported.view().dom()
    }

    /// Status 0, every option off, no traps, arrays or variables, nothing
    /// exported, no jobs (the first one gets id 1), and an empty argument
    /// list for the script.
    pub fn new() -> (v: Self)
        ensures
            v.last_status == 0,
            !v.options.errexit && !v.options.nounset && !v.options.xtrace,
            v.traps.view() == Map::<Seq<char>, Seq<char>>::empty(),
            v.arrays.view() == Map::<Seq<char>, Seq<Seq<char>>>::empty(),
            v.aliases.view() == Map::<Seq<char>, Seq<char>>::empty(),
            v.jobs.view() == Seq::<JobView>::empty(),
            v.jobs.next() == 1,
            v.contexts() == seq![Seq::<Seq<char>>::empty()],
            v.locals() == Map::<Seq<char>, Seq<char>>::empty(),
            v.exported() == Set::<Seq<char>>::empty(),
    {
        let mut contexts: Vec<Vec<String>> = Vec::new();
        let base: Vec<String> = Vec::new();
        assert(strings_view(base@) =~= Seq::<Seq<char>>::empty());
        contexts.push(base);
        let v = Executor {
            last_status: 0,
            options: ShellOptions { errexit: false, nounset: false, xtrace: false },
            traps: VarTable::new(),
            arrays: ArrayTable::new(),
            aliases: VarTable::new(),
            jobs: JobTable::new(),
            contexts,
            locals: VarTable::new(),
            exported: VarTable::new(),
        };
        assert(v.contexts()[0] == strings_view(v.contexts@[0]@));
        assert(v.contexts() =~= seq![Seq::<Seq<char>>::empty()]);
        assert(v.exported() =~= Set::<Seq<char>>::empty());
        v
    }

    /// Makes `args` the current argument list.
    pub fn push_context(&mut self, args: Vec<String>)
        ensures
            final(self).contexts() == old(self).contexts().push(strings_view(args@)),
            final(self).locals() == old(self).locals(),
            final(self).exported() == old(self).exported(),
    {
        let ghost before = self.contexts@;
        let ghost a = strings_view(args@);
        self.contexts.push(args);
        assert(self.contexts@.map_values(|c: Vec<String>| strings_view(c@)) =~= before.map_values(
            |c: Vec<String>| strings_view(c@),
        ).push(a));
    }

    /// Drops the current argument list, unless it is the script's own.
    pub fn pop_context(&mut self)
        ensures
            old(self).contexts().len() > 1 ==> final(self).contexts() == old(self).contexts().drop_last(),
            old(self).contexts().len() <= 1 ==> final(self).contexts() == old(self).contexts(),
            final(self).locals() == old(self).locals(),
            final(self).exported() == old(self).exported(),
    {
        if self.contexts.len() > 1 {
            let ghost before = self.contexts@;
            self.contexts.pop();
            assert(self.contexts@.map_values(|c: Vec<String>| strings_view(c@)) =~= before.map_values(
                |c: Vec<String>| strings_view(c@),
            ).drop_last());
        }
    }

    /// The current argument list: `$1`, `$2`, ... of the running script,
    /// function or sourced file (none where there is no list).
    pub fn current_args(&self) -> (r: Vec<String>)
        ensures
            strings_view(r@) == (if self.contexts().len() > 0 {
                self.contexts().last()
            } else {
                Seq::empty()
            }),
    {
        if self.contexts.len() == 0 {
            let r: Vec<String> = Vec::new();
            assert(strings_view(r@) =~= Seq::<Seq<char>>::empty());
            return r;
        }
        let top = &self.contexts[self.contexts.len() - 1];
        assert(self.contexts().last() == strings_view(top@));
        let mut r: Vec<String> = Vec::new();
        let mut i: usize = 0;
        while i < top.len()
            invariant
                i <= top@.len(),
                strings_view(r@) == strings_view(top@).subrange(0, i as int),
            decreases top@.len() - i,
        {
            let ghost before = strings_view(r@);
            r.push(copy_string(&top[i]));
            assert(strings_view(r@) =~= before.push(top@[i as int]@));
            i = i + 1;
            assert(strings_view(top@).subrange(0, i as int) =~= strings_view(top@).subrange(
                0,
                i - 1,
            ).push(top@[i - 1]@));
        }
        assert(strings_view(top@).subrange(0, top@.len() as int) =~= strings_view(top@));
        r
    }

    /// Sets the shell variable `key` to `value`. Gives whether `key` was
    /// exported, in which case the environment variable is to be set to
    /// the same value: once exported, a name stays exported.
    pub fn set_variable(&mut self, key: &str, value: &str) -> (in_env: bool)
        ensures
            final(self).locals() == old(self).locals().insert(key@, value@),
            final(self).exported() == old(self).exported(),
            final(self).contexts() == old(self).contexts(),
            in_env == old(self).exported().contains(key@),
            final(self).exported == old(self).exported,
            final(self).contexts == old(self).contexts,
            final(self).last_status == old(self).last_status,
            final(self).options == old(self).options,
            final(self).traps == old(self).traps,
            final(self).aliases == old(self).aliases,
            final(self).jobs == old(self).jobs,
            final(self).arrays == old(self).arrays,
    {
        self.locals.set(key, String::from_str(value));
        self.exported.contains(key)
    }

    /// The value of `key`: the shell variable, otherwise the variable of
    /// the environment `env`.
    pub fn get_variable(&self, key: &str, env: &VarTable) -> (r: Option<String>)
        ensures
            match r {
                Some(v) => lookup(self.locals(), env.view(), key@) == Some(v@),
                None => lookup(self.locals(), env.view(), key@) is None,
            },
    {
        match self.locals.get(key) {
            Some(v) => Some(v),
            None => env.get(key),
        }
    }

    /// Promotes `key` to the environment, whose variables are `env`. Gives
    /// the value to set it to there: its current value, or nothing where it
    /// has none.
    pub fn export_variable(&mut self, key: &str, env: &VarTable) -> (value: String)
        ensures
            final(self).exported() == old(self).exported().insert(key@),
            final(self).locals() == old(self).locals(),
            final(self).contexts() == old(self).contexts(),
            value@ == match lookup(old(self).locals(), env.view(), key@) {
                Some(v) => v,
                None => Seq::empty(),
            },
    {
        let value = match self.get_variable(key, env) {
            Some(v) => v,
            None => String::new(),
        };
        let ghost before = self.exported.view();
        self.exported.set(key, String::new());
        assert(self.exported.view().dom() =~= before.dom().insert(key@));
        value
    }
}

impl Executor {
    /// The status of the last command.
    pub fn last_status(&self) -> (s: i32)
        ensures
            s == self.last_status,
    {
        self.last_status
    }

    /// An expander over this state, reading the environment `env`: the
    /// last status, the current argument list, the options, the arrays and
    /// the shell variables.
    pub fn expander(&self, env: &VarTable) -> (e: Expander)
        ensures
            e.view() == (ExpanderView {
                last_exit_code: self.last_status,
                positional: if self.contexts().len() > 0 {
                    self.contexts().last()
                } else {
                    Seq::empty()
                },
                options: self.options,
                arrays: self.arrays.view(),
                locals: self.locals(),
                env: env.view(),
            }),
    {
        Expander::new(
            self.last_status,
            self.current_args(),
            self.options,
            self.arrays.copy(),
            self.locals.copy(),
            env.copy(),
        )
    }

    /// The command registered by `trap ... EXIT`, to be run when the shell
    /// is about to leave.
    pub fn exit_trap(&self) -> (r: Option<String>)
        ensures
            match r {
                Some(c) => self.traps.view().contains_key("EXIT"@) && c@ == self.traps.view()["EXIT"@],
                None => !self.traps.view().contains_key("EXIT"@),
            },
    {
        self.traps.get("EXIT")
    }
}

/// What a variable was last set to is what it reads, whatever the
/// environment holds.
pub proof fn law_set_then_get(
    locals: Map<Seq<char>, Seq<char>>,
    env: Map<Seq<char>, Seq<char>>,
    key: Seq<char>,
    value: Seq<char>,
)
    ensures
        lookup(locals.insert(key, value), env, key) == Some(value),
{
}

/// An argument list pushed and then popped leaves the stack as it was.
pub proof fn law_push_then_pop(contexts: Seq<Seq<Seq<char>>>, args: Seq<Seq<char>>)
    requires
        contexts.len() >= 1,
    ensures
        contexts.push(args).len() > 1,
        contexts.push(args).drop_last() == contexts,
        contexts.push(args).last() == args,
{
    assert(contexts.push(args).drop_last() =~= contexts);
}

} // verus!
