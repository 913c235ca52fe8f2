//! The shell's built-in commands: `cd`, `pwd`, `export` and `exit`.

use vstd::prelude::*;
use crate::text::{
    in_class, lemma_prefix_while, lemma_skip_len, lemma_split_char_nonempty, prefix_while, same_text,
    split_char, split_on, views, Class,
};

verus! {

/// A built-in command, as the shell is to carry it out.
#[derive(Debug, PartialEq, Eq)]
pub enum Builtin {
    /// change the working directory to the one given
    Cd(String),
    /// print the working directory
    Pwd,
    /// set the environment variables, in order
    Export { vars: Vec<(String, String)> },
    /// leave the shell
    Exit,
}

/// The model of a `Builtin`.
pub enum BuiltinModel {
    Cd(Seq<char>),
    Pwd,
    Export { vars: Seq<(Seq<char>, Seq<char>)> },
    Exit,
}

/// The views of a sequence of assignments.
pub open spec fn pairs_view(v: Seq<(String, String)>) -> Seq<(Seq<char>, Seq<char>)> {
    v.map_values(|p: (String, String)| (p.0@, p.1@))
}

impl View for Builtin {
    type V = BuiltinModel;

    open spec fn view(&self) -> BuiltinModel {
        match self {
            Builtin::Cd(d) => BuiltinModel::Cd(d@),
            Builtin::Pwd => BuiltinModel::Pwd,
            Builtin::Export { vars } => BuiltinModel::Export { vars: pairs_view(vars@) },
            Builtin::Exit => BuiltinModel::Exit,
        }
    }
}

/// Why the shell refuses a built-in command.
#[derive(Clone, Copy, Debug, PartialEq, Eq)]
pub enum Refusal {
    /// `cd` without a directory
    NoDir,
    /// `export` whose argument at this position holds no `=`; the arguments
    /// before it are assigned first
    NoValue(usize),
}

/// The model of a `Refusal`.
pub enum RefusalModel {
    NoDir,
    NoValue(int),
}

impl View for Refusal {
    type V = RefusalModel;

    open spec fn view(&self) -> RefusalModel {
        match self {
            Refusal::NoDir => RefusalModel::NoDir,
            Refusal::NoValue(k) => RefusalModel::NoValue(*k as int),
        }
    }
}

/// An argument holds no `=`.
pub open spec fn lacks_eq(arg: Seq<char>) -> bool {
    forall|j: int| 0 <= j < arg.len() ==> #[trigger] arg[j] != '='
}

/// The position of the first argument that holds no `=`.
pub open spec fn first_without_eq(args: Seq<Seq<char>>) -> Option<int>
    decreases args.len(),
{
    if args.len() == 0 {
        None
    } else if lacks_eq(args[0]) {
        Some(0)
    } else {
        match first_without_eq(args.drop_first()) {
            Some(k) => Some(k + 1),
            None => None,
        }
    }
}

/// The assignments of `export`'s arguments: each argument gives the name
/// before its first `=` and the value between its first `=` and the next
/// `=` (or its end).
pub open spec fn export_vars(args: Seq<Seq<char>>) -> Seq<(Seq<char>, Seq<char>)> {
    args.map_values(|a: Seq<char>| (split_char(a, '=')[0], split_char(a, '=')[1]))
}

/// The built-in commands that the shell refuses: `cd` without a directory,
/// and `export` with an argument that holds no `=`.
pub open spec fn refusal(prog: Seq<char>, args: Seq<Seq<char>>) -> Option<RefusalModel> {
    if prog == "cd"@ {
        if args.len() == 0 {
            Some(RefusalModel::NoDir)
        } else {
            None
        }
    } else if prog == "export"@ {
        match first_without_eq(args) {
            Some(k) => Some(RefusalModel::NoValue(k)),
            None => None,
        }
    } else {
        None
    }
}

/// Which built-in command `prog` is, given its arguments; `None` for a
/// program that is not built in.
pub open spec fn builtin(prog: Seq<char>, args: Seq<Seq<char>>) -> Option<BuiltinModel> {
    if prog == "cd"@ {
        Some(BuiltinModel::Cd(args[0]))
    } else if prog == "pwd"@ {
        Some(BuiltinModel::Pwd)
    } else if prog == "export"@ {
        Some(BuiltinModel::Export { vars: export_vars(args) })
    } else if prog == "exit"@ {
        Some(BuiltinModel::Exit)
    } else {
        None
    }
}

pub open spec fn opt_builtin_view(b: Option<Builtin>) -> Option<BuiltinModel> {
    match b {
        Some(x) => Some(x@),
        None => None,
    }
}

pub open spec fn opt_refusal_view(r: Option<Refusal>) -> Option<RefusalModel> {
    match r {
        Some(x) => Some(x@),
        None => None,
    }
}

/// An argument lacks an `=` exactly when it does not split into at least
/// two pieces there.
pub proof fn lemma_has_assignment(arg: Seq<char>)
    ensures
        split_char(arg, '=').len() >= 2 <==> !lacks_eq(arg),
{
    let i = prefix_while(arg, Class::Not('=')) as int;
    lemma_prefix_while(arg, Class::Not('='));
    if i < arg.len() {
        lemma_skip_len(arg, i + 1);
        lemma_split_char_nonempty(arg.skip(i + 1), '=');
        assert(arg[i] == '=');
    } else {
        assert forall|j: int| 0 <= j < arg.len() implies #[trigger] arg[j] != '=' by {
            assert(in_class(arg[j], Class::Not('=')));
        }
    }
}

/// `first_without_eq` is the first position of an argument without `=`.
pub proof fn lemma_first_without_eq(args: Seq<Seq<char>>)
    ensures
        match first_without_eq(args) {
            Some(k) => 0 <= k < args.len() && lacks_eq(args[k]) && forall|j: int|
                0 <= j < k ==> !lacks_eq(#[trigger] args[j]),
            None => forall|j: int| 0 <= j < args.len() ==> !lacks_eq(#[trigger] args[j]),
        },
    decreases args.len(),
{
    if args.len() > 0 && !lacks_eq(args[0]) {
        let rest = args.drop_first();
        lemma_first_without_eq(rest);
        assert forall|j: int| 1 <= j < args.len() implies args[j] == rest[j - 1] by {}
        match first_without_eq(rest) {
            Some(k) => {
                assert forall|j: int| 0 <= j < k + 1 implies !lacks_eq(#[trigger] args[j]) by {
                    if j > 0 {
                        assert(args[j] == rest[j - 1]);
                    }
                }
            },
            None => {
                assert forall|j: int| 0 <= j < args.len() implies !lacks_eq(#[trigger] args[j]) by {
                    if j > 0 {
                        assert(args[j] == rest[j - 1]);
                    }
                }
            },
        }
    }
}

/// Whether the shell refuses the built-in command (`refusal`).
pub fn builtin_refusal(prog: &str, args: &Vec<String>) -> (r: Option<Refusal>)
    ensures
        opt_refusal_view(r) == refusal(prog@, views(args@)),
{
    if same_text(prog, "cd") {
        if args.len() == 0 {
            Some(Refusal::NoDir)
        } else {
            None
        }
    } else if same_text(prog, "export") {
        let ghost all = views(args@);
        proof {
            lemma_first_without_eq(all);
        }
        let mut i: usize = 0;
        while i < args.len()
            invariant
                all == views(args@),
                prog@ != "cd"@,
                prog@ == "export"@,
                i <= args@.len(),
                forall|j: int| 0 <= j < i ==> !lacks_eq(#[trigger] all[j]),
                match first_without_eq(all) {
                    Some(k) => 0 <= k < all.len() && lacks_eq(all[k]) && forall|j: int|
                        0 <= j < k ==> !lacks_eq(#[trigger] all[j]),
                    None => forall|j: int| 0 <= j < all.len() ==> !lacks_eq(#[trigger] all[j]),
                },
            decreases args@.len() - i,
        {
            let pieces = split_on(args[i].as_str(), '=');
            proof {
                assert(all[i as int] == args@[i as int]@);
                lemma_has_assignment(all[i as int]);
            }
            if pieces.len() < 2 {
                proof {
                    assert(views(pieces@).len() == pieces@.len());
                    assert(lacks_eq(all[i as int]));
                    if first_without_eq(all) != Some(i as int) {
                        match first_without_eq(all) {
                            Some(k) => {
                                if k < i {
                                    assert(!lacks_eq(all[k]));
                                } else {
                                    assert(!lacks_eq(all[i as int]));
                                }
                            },
                            None => {
                                assert(!lacks_eq(all[i as int]));
                            },
                        }
                    }
                }
                return Some(Refusal::NoValue(i));
            }
            assert(views(pieces@).len() == pieces@.len());
            assert(!lacks_eq(all[i as int]));
            i += 1;
        }
        proof {
            if let Some(k) = first_without_eq(all) {
                assert(!lacks_eq(all[k]));
            }
        }
        None
    } else {
        None
    }
}

/// The assignments of `export`'s arguments (`export_vars`), each of which
/// holds an `=`.
pub fn export_assignments(args: &Vec<String>) -> (r: Vec<(String, String)>)
    requires
        first_without_eq(views(args@)) is None,
    ensures
        pairs_view(r@) == export_vars(views(args@)),
{
    let ghost all = views(args@);
    proof {
        lemma_first_without_eq(all);
    }
    let mut vars: Vec<(String, String)> = Vec::new();
    let mut i: usize = 0;
    while i < args.len()
        invariant
            all == views(args@),
            i <= args@.len(),
            forall|j: int| 0 <= j < all.len() ==> !lacks_eq(#[trigger] all[j]),
            pairs_view(vars@) =~= export_vars(all).take(i as int),
        decreases args@.len() - i,
    {
        proof {
            assert(all[i as int] == args@[i as int]@);
            lemma_has_assignment(all[i as int]);
        }
        let pieces = split_on(args[i].as_str(), '=');
        assert(views(pieces@)[0] == pieces@[0]@);
        assert(views(pieces@)[1] == pieces@[1]@);
        let name = pieces[0].clone();
        let value = pieces[1].clone();
        proof {
            let next = vars@.push((name, value));
            assert(pairs_view(next) =~= pairs_view(vars@).push((name@, value@)));
            assert(export_vars(all).take(i + 1) =~= export_vars(all).take(i as int).push(
                export_vars(all)[i as int],
            ));
        }
        vars.push((name, value));
        i += 1;
    }
    assert(export_vars(all).take(i as int) =~= export_vars(all));
    vars
}

/// Recognises a built-in command the shell does not refuse: `cd` with its
/// first argument, `pwd`, `export` with its assignments, and `exit`.
pub fn builtin_of(prog: &str, args: &Vec<String>) -> (r: Option<Builtin>)
    requires
        refusal(prog@, views(args@)) is None,
    ensures
        opt_builtin_view(r) == builtin(prog@, views(args@)),
{
    if same_text(prog, "cd") {
        assert(views(args@)[0] == args@[0]@);
        Some(Builtin::Cd(args[0].clone()))
    } else if same_text(prog, "pwd") {
        Some(Builtin::Pwd)
    } else if same_text(prog, "export") {
        Some(Builtin::Export { vars: export_assignments(args) })
    } else if same_text(prog, "exit") {
        Some(Builtin::Exit)
    } else {
        None
    }
}

} // verus!
