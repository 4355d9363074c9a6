use crate::chars::str_eq;
use crate::digits::all_digits;
use crate::digits::digits_val;
use crate::digits::parse_usize;
use vstd::prelude::*;
use vstd::string::StringExecFns;

verus! {

/// One of the six commands of the surface, with its argument where it
/// takes one.
#[derive(Debug, Clone, PartialEq, Eq)]
pub enum Command {
    Help,
    Add(String),
    List,
    Complete(usize),
    Remove(usize),
    Clear,
}

/// The mathematical image of a command.
pub ghost enum CommandView {
    Help,
    Add(Seq<char>),
    List,
    Complete(nat),
    Remove(nat),
    Clear,
}

impl View for Command {
    type V = CommandView;

    open spec fn view(&self) -> CommandView {
        match self {
            Command::Help => CommandView::Help,
            Command::Add(d) => CommandView::Add(d@),
            Command::List => CommandView::List,
            Command::Complete(n) => CommandView::Complete(*n as nat),
            Command::Remove(n) => CommandView::Remove(*n as nat),
            Command::Clear => CommandView::Clear,
        }
    }
}

/// Why an argument vector names no command: an unknown or missing verb, a
/// missing or malformed task number, or an empty description.
#[derive(Debug, Clone, Copy, PartialEq, Eq, Structural)]
pub enum CommandError {
    UnknownCommand,
    EmptyDescription,
    MissingNumber,
    BadNumber,
}

/// Words joined by single spaces.
pub open spec fn spec_join(ws: Seq<Seq<char>>) -> Seq<char>
    decreases ws.len(),
{
    if ws.len() == 0 {
        Seq::empty()
    } else if ws.len() == 1 {
        ws[0]
    } else {
        spec_join(ws.drop_last()) + seq![' '] + ws.last()
    }
}

/// How an argument vector (everything after the program name) is read: the
/// first word picks the command; `add` joins the remaining words into the
/// description and rejects an empty one; `complete` and `remove` want one
/// decimal task number; any other first word, or none, is unknown.
pub open spec fn spec_parse_command(a: Seq<Seq<char>>) -> Result<CommandView, CommandError> {
    if a.len() == 0 {
        Err(CommandError::UnknownCommand)
    } else {
        let c = a[0];
        if c == "help"@ {
            Ok(CommandView::Help)
        } else if c == "add"@ {
            let d = spec_join(a.subrange(1, a.len() as int));
            if d.len() == 0 {
                Err(CommandError::EmptyDescription)
            } else {
                Ok(CommandView::Add(d))
            }
        } else if c == "list"@ {
            Ok(CommandView::List)
        } else if c == "complete"@ {
            if a.len() < 2 {
                Err(CommandError::MissingNumber)
            } else if a[1].len() > 0 && all_digits(a[1]) && digits_val(a[1]) <= usize::MAX as nat {
                Ok(CommandView::Complete(digits_val(a[1])))
            } else {
                Err(CommandError::BadNumber)
            }
        } else if c == "remove"@ {
            if a.len() < 2 {
                Err(CommandError::MissingNumber)
            } else if a[1].len() > 0 && all_digits(a[1]) && digits_val(a[1]) <= usize::MAX as nat {
                Ok(CommandView::Remove(digits_val(a[1])))
            } else {
                Err(CommandError::BadNumber)
            }
        } else if c == "clear"@ {
            Ok(CommandView::Clear)
        } else {
            Err(CommandError::UnknownCommand)
        }
    }
}

/// The image of a command-or-error result.
pub open spec fn result_view(r: Result<Command, CommandError>) -> Result<
    CommandView,
    CommandError,
> {
    match r {
        Ok(c) => Ok(c@),
        Err(e) => Err(e),
    }
}

/// Join the words after the first into one description.
fn join_rest(args: &Vec<String>) -> (r: String)
    requires
        args.len() >= 1,
    ensures
        r@ == spec_join(args.deep_view().subrange(1, args.deep_view().len() as int)),
{
    let ghost a = args.deep_view();
    let mut r = String::new();
    let mut k: usize = 1;
    proof {
        assert(a.subrange(1, 1) =~= Seq::<Seq<char>>::empty());
    }
    while k < args.len()
        invariant
            1 <= k <= args.len(),
            a == args.deep_view(),
            a.len() == args.len(),
            r@ == spec_join(a.subrange(1, k as int)),
            forall|m: int| 0 <= m < a.len() ==> a[m] == args@[m]@,
        decreases args.len() - k,
    {
        if k > 1 {
            r.append(" ");
        }
        r.append(args[k].as_str());
        proof {
            reveal_strlit(" ");
            let p = a.subrange(1, k + 1);
            assert(p.drop_last() =~= a.subrange(1, k as int));
            assert(p.last() == a[k as int]);
            if k == 1 {
                assert(p.len() == 1);
                assert(p[0] == a[1]);
                assert(r@ =~= spec_join(p));
            } else {
                assert(" "@ =~= seq![' ']);
                assert(r@ =~= spec_join(p));
            }
        }
        k = k + 1;
    }
    proof {
        assert(a.subrange(1, a.len() as int) =~= a.subrange(1, args.len() as int));
    }
    r
}

/// Read an argument vector (everything after the program name) as a
/// command, or say why it names none.
pub fn parse_command(args: &Vec<String>) -> (r: Result<Command, CommandError>)
    ensures
        result_view(r) == spec_parse_command(args.deep_view()),
{
    let ghost a = args.deep_view();
    proof {
        assert(forall|m: int| 0 <= m < a.len() ==> a[m] == args@[m]@);
    }
    if args.len() == 0 {
        return Err(CommandError::UnknownCommand);
    }
    let c0 = &args[0];
    if str_eq(c0.as_str(), "help") {
        Ok(Command::Help)
    } else if str_eq(c0.as_str(), "add") {
        let d = join_rest(args);
        if d.as_str().is_empty() {
            Err(CommandError::EmptyDescription)
        } else {
            Ok(Command::Add(d))
        }
    } else if str_eq(c0.as_str(), "list") {
        Ok(Command::List)
    } else if str_eq(c0.as_str(), "complete") {
        if args.len() < 2 {
            Err(CommandError::MissingNumber)
        } else {
            match parse_usize(args[1].as_str()) {
                Some(n) => Ok(Command::Complete(n)),
                None => Err(CommandError::BadNumber),
            }
        }
    } else if str_eq(c0.as_str(), "remove") {
        if args.len() < 2 {
            Err(CommandError::MissingNumber)
        } else {
            match parse_usize(args[1].as_str()) {
                Some(n) => Ok(Command::Remove(n)),
                None => Err(CommandError::BadNumber),
            }
        }
    } else if str_eq(c0.as_str(), "clear") {
        Ok(Command::Clear)
    } else {
        Err(CommandError::UnknownCommand)
    }
}

} // verus!
