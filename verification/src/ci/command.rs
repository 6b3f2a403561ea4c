//! The invocation of an external program, as plain data.

use vstd::prelude::*;
use vstd::string::StringExecFns;
use crate::strmap::StringMap;

verus! {

/// `items` without its first `n` members: nothing where it has no more than `n`.
pub open spec fn without_first<T>(items: Seq<T>, n: int) -> Seq<T> {
    if 0 <= n <= items.len() {
        items.skip(n)
    } else {
        Seq::empty()
    }
}

/// Something that was read and left out while an invocation was built,
/// kept for the caller to report.
#[derive(Debug, Clone, PartialEq, Eq)]
pub enum Ignored {
    /// A command that came after the one that was used.
    Command(String),
    /// The key of a parameter that is not known.
    Parameter(String),
}

/// What an `Ignored` holds.
pub enum IgnoredView {
    Command(Seq<char>),
    Parameter(Seq<char>),
}

impl DeepView for Ignored {
    type V = IgnoredView;

    open spec fn deep_view(&self) -> IgnoredView {
        match self {
            Ignored::Command(text) => IgnoredView::Command(text@),
            Ignored::Parameter(key) => IgnoredView::Parameter(key@),
        }
    }
}

/// What an `Invocation` holds.
pub struct InvocationView {
    pub program: Seq<char>,
    pub args: Seq<Seq<char>>,
    pub root: Seq<char>,
    pub working_directory: Option<Seq<char>>,
    pub env: Map<Seq<char>, Seq<char>>,
    pub ignored: Seq<IgnoredView>,
}

/// A program to run: its name, its arguments in order, the directory it
/// starts from, a directory below that one to run in instead where one is
/// set, and the environment variables laid over the caller's own. With it
/// comes the list of what was read and left out while it was built.
#[derive(Debug, PartialEq, Eq)]
pub struct Invocation {
    program: String,
    args: Vec<String>,
    root: String,
    working_directory: Option<String>,
    env: StringMap<String>,
    ignored: Vec<Ignored>,
}

impl View for Invocation {
    type V = InvocationView;

    closed spec fn view(&self) -> InvocationView {
        InvocationView {
            program: self.program@,
            args: self.args.deep_view(),
            root: self.root@,
            working_directory: match self.working_directory {
                Some(dir) => Some(dir@),
                None => None,
            },
            env: self.env.map(),
            ignored: self.ignored.deep_view(),
        }
    }
}

impl Invocation {
    #[verifier::type_invariant]
    spec fn has_program(self) -> bool {
        self.program@.len() > 0
    }

    /// An invocation of `program` without arguments, started from the
    /// current directory; none for an empty name.
    pub fn new(program: &str) -> (out: Option<Invocation>)
        ensures
            program@.len() == 0 <==> out is None,
            out matches Some(cmd) ==> cmd@ == (InvocationView {
                program: program@,
                args: Seq::empty(),
                root: Seq::empty(),
                working_directory: None,
                env: Map::empty(),
                ignored: Seq::empty(),
            }),
    {
        if program.is_empty() {
            return None;
        }
        let cmd = Invocation {
            program: String::from_str(program),
            args: Vec::new(),
            root: String::new(),
            working_directory: None,
            env: StringMap::new(),
            ignored: Vec::new(),
        };
        assert(cmd.args.deep_view() =~= Seq::<Seq<char>>::empty());
        assert(cmd.ignored.deep_view() =~= Seq::<IgnoredView>::empty());
        Some(cmd)
    }

    /// The program's name, which is never empty.
    pub fn get_program(&self) -> (name: &str)
        ensures
            name@ == self@.program,
            name@.len() > 0,
    {
        proof {
            use_type_invariant(self);
        }
        self.program.as_str()
    }

    /// The arguments, in order.
    pub fn get_args(&self) -> (args: &Vec<String>)
        ensures
            args.deep_view() == self@.args,
    {
        &self.args
    }

    /// The directory the program is started from.
    pub fn get_root(&self) -> (root: &str)
        ensures
            root@ == self@.root,
    {
        self.root.as_str()
    }

    /// The directory below the root to run in instead, where one is set.
    pub fn get_working_directory(&self) -> (dir: Option<&str>)
        ensures
            match dir {
                Some(d) => self@.working_directory == Some(d@),
                None => self@.working_directory is None,
            },
    {
        match &self.working_directory {
            Some(dir) => Some(dir.as_str()),
            None => None,
        }
    }

    /// The environment overlay.
    pub fn get_envs(&self) -> (env: &StringMap<String>)
        ensures
            env.map() == self@.env,
    {
        &self.env
    }

    /// What was read and left out while the invocation was built, in order.
    pub fn get_ignored(&self) -> (ignored: &Vec<Ignored>)
        ensures
            ignored.deep_view() == self@.ignored,
    {
        &self.ignored
    }

    /// Notes something that was read and left out.
    pub fn ignore(&mut self, item: Ignored)
        ensures
            final(self)@ == (InvocationView {
                ignored: old(self)@.ignored.push(item.deep_view()),
                ..old(self)@
            }),
    {
        proof {
            use_type_invariant(&*self);
        }
        let ghost before = self.ignored.deep_view();
        let mut ignored = Vec::new();
        std::mem::swap(&mut ignored, &mut self.ignored);
        ignored.push(item);
        assert(ignored.deep_view() =~= before.push(item.deep_view()));
        self.ignored = ignored;
    }

    /// Appends one argument.
    pub fn arg(&mut self, arg: &str)
        ensures
            final(self)@ == (InvocationView { args: old(self)@.args.push(arg@), ..old(self)@ }),
    {
        proof {
            use_type_invariant(&*self);
        }
        let ghost before = self.args.deep_view();
        let mut args = Vec::new();
        std::mem::swap(&mut args, &mut self.args);
        args.push(String::from_str(arg));
        assert(args.deep_view() =~= before.push(arg@));
        self.args = args;
    }

    /// Appends `args` without its first `from` members.
    pub fn args_from(&mut self, args: &Vec<String>, from: usize)
        ensures
            final(self)@ == (InvocationView {
                args: old(self)@.args + without_first(args.deep_view(), from as int),
                ..old(self)@
            }),
    {
        let mut i: usize = from;
        if from >= args.len() {
            assert(without_first(args.deep_view(), from as int) =~= Seq::<Seq<char>>::empty());
            assert(self@.args + Seq::<Seq<char>>::empty() =~= self@.args);
            return ;
        }
        assert(self@.args + args.deep_view().subrange(from as int, from as int) =~= self@.args);
        while i < args.len()
            invariant
                from <= i <= args.len(),
                self@ == (InvocationView {
                    args: old(self)@.args + args.deep_view().subrange(from as int, i as int),
                    ..old(self)@
                }),
            decreases args.len() - i,
        {
            self.arg(args[i].as_str());
            assert(args.deep_view().subrange(from as int, i + 1) =~= args.deep_view().subrange(
                from as int,
                i as int,
            ).push(args@[i as int]@));
            assert(self@.args =~= old(self)@.args + args.deep_view().subrange(
                from as int,
                i + 1,
            ));
            i += 1;
        }
        assert(args.deep_view().subrange(from as int, args.len() as int) =~= args.deep_view().skip(
            from as int,
        ));
    }

    /// Appends all of `args`.
    pub fn args(&mut self, args: &Vec<String>)
        ensures
            final(self)@ == (InvocationView {
                args: old(self)@.args + args.deep_view(),
                ..old(self)@
            }),
    {
        self.args_from(args, 0);
        assert(without_first(args.deep_view(), 0) =~= args.deep_view());
    }
    /// Sets one environment variable, in place of what was set under its name.
    pub fn env(&mut self, name: &str, value: &str)
        ensures
            final(self)@ == (InvocationView {
                env: old(self)@.env.insert(name@, value@),
                ..old(self)@
            }),
    {
        proof {
            use_type_invariant(&*self);
        }
        let mut env = StringMap::new();
        std::mem::swap(&mut env, &mut self.env);
        env.insert(String::from_str(name), String::from_str(value));
        self.env = env;
    }

    /// Sets every variable of `vars`, each in place of what was set under its name.
    pub fn envs(&mut self, vars: &StringMap<String>)
        ensures
            final(self)@ == (InvocationView {
                env: old(self)@.env.union_prefer_right(vars.map()),
                ..old(self)@
            }),
    {
        proof {
            use_type_invariant(&*self);
        }
        let mut env = StringMap::new();
        std::mem::swap(&mut env, &mut self.env);
        env.merge(vars);
        self.env = env;
    }

    /// Sets the directory the program is started from.
    pub fn current_dir(&mut self, root: &str)
        ensures
            final(self)@ == (InvocationView { root: root@, ..old(self)@ }),
    {
        proof {
            use_type_invariant(&*self);
        }
        self.root = String::from_str(root);
    }

    /// Sets the directory below the root to run in instead.
    pub fn working_directory(&mut self, dir: &str)
        ensures
            final(self)@ == (InvocationView { working_directory: Some(dir@), ..old(self)@ }),
    {
        proof {
            use_type_invariant(&*self);
        }
        self.working_directory = Some(String::from_str(dir));
    }
}

} // verus!
