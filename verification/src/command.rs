//! The command interpreter: classifies one input line at a time, drives the
//! task store, and reports the outcome of each line. The two-line `UPDATE`
//! exchange is modelled as an explicit phase, so a front end only ever hands
//! the interpreter whole lines.
use vstd::prelude::*;

verus! {

use crate::store::List;
use vstd::string::StringExecFns;
use crate::task::{Task, default_content};
use crate::text::{
    chars_of, chars_eq, clamp_index, dec_chars, dec_usize, index_val, matches_at, parse_index,
    string_from_chars,
};

/// Where the interpreter stands: awaiting a command line, or awaiting the
/// replacement content for the task at the given index.
#[derive(Clone, Copy)]
pub enum Phase {
    Ready,
    Awaiting(usize),
}

/// The outcome of one input line.
pub enum Response {
    /// A task was appended.
    Added,
    /// The addressed task was removed.
    Deleted,
    /// The addressed task's content was replaced; holds the previous content.
    Updated(String),
    /// The addressed task is shown and replacement content is prompted for.
    Show(String),
    /// A well-formed index outside `[0, count)`, brought into the machine's
    /// index range (a numeral beyond it is out of range of every store).
    OutOfRange(usize),
    /// An index argument that does not parse as an integer; holds it verbatim.
    NotANumber(String),
    /// A command that needs an index got none.
    NoIndex,
    /// The stored tasks, paired with their indices.
    Listing(Vec<(usize, Task)>),
    /// A listing was asked for but the store is empty.
    Empty,
    /// The store was emptied.
    Cleared,
    /// The session ends; the store is to be persisted.
    Bye,
    /// An unrecognized line, held verbatim.
    Unknown(String),
}

/// The rest of the line after its first space, if any; how a command's
/// argument is carved off.
pub open spec fn split_arg(s: Seq<char>) -> Option<Seq<char>>
    decreases s.len(),
{
    if s.len() == 0 {
        None
    } else if s[0] == ' ' {
        Some(s.drop_first())
    } else {
        split_arg(s.drop_first())
    }
}

/// The rest of `v` after its first space, if any.
pub fn arg_after_space(v: &Vec<char>) -> (r: Option<Vec<char>>)
    ensures
        match r {
            Some(a) => split_arg(v@) == Some(a@),
            None => split_arg(v@) is None,
        },
{
    let n = v.len();
    let mut i: usize = 0;
    proof {
        assert(v@.skip(0) =~= v@);
    }
    while i < n
        invariant
            i <= n,
            n == v@.len(),
            split_arg(v@) == split_arg(v@.skip(i as int)),
        decreases n - i,
    {
        if v[i] == ' ' {
            let mut a: Vec<char> = Vec::new();
            let mut j: usize = i + 1;
            while j < n
                invariant
                    i + 1 <= j <= n,
                    n == v@.len(),
                    a@ == v@.subrange(i + 1, j as int),
                decreases n - j,
            {
                a.push(v[j]);
                j = j + 1;
                proof {
                    assert(a@ =~= v@.subrange(i + 1, j as int));
                }
            }
            proof {
                assert(v@.skip(i as int)[0] == ' ');
                assert(v@.skip(i as int).drop_first() =~= v@.subrange(i + 1, n as int));
                assert(a@ == v@.skip(i as int).drop_first());
            }
            return Some(a);
        }
        proof {
            assert(v@.skip(i as int)[0] == v@[i as int]);
            assert(v@.skip(i as int).drop_first() =~= v@.skip(i + 1));
        }
        i = i + 1;
    }
    proof {
        assert(v@.skip(n as int).len() == 0);
    }
    None
}

/// The content an `ADD` line asks for: its argument, or the placeholder
/// when the line has no argument.
pub open spec fn add_content(s: Seq<char>) -> Seq<char> {
    match split_arg(s) {
        Some(a) => a,
        None => default_content(),
    }
}

/// What one line does: how the store and phase after the line relate to
/// those before it, and what response the line produces.
pub open spec fn step_post(
    pre: Session,
    post: Session,
    s: Seq<char>,
    r: Response,
) -> bool {
    match pre.phase {
        Phase::Awaiting(n) => {
            &&& post.phase is Ready
            &&& post.list.contents() == pre.list.contents().update(n as int, s)
            &&& post.list.count == pre.list.count
            &&& r matches Response::Updated(p) && p@ == pre.list.contents()[n as int]
        },
        Phase::Ready => {
            if "ADD"@.is_prefix_of(s) {
                &&& post.phase is Ready
                &&& post.list.contents() == pre.list.contents().push(add_content(s))
                &&& post.list.count == pre.list.count + 1
                &&& r is Added
            } else if "DEL"@.is_prefix_of(s) {
                match split_arg(s) {
                    None => post == pre && r is NoIndex,
                    Some(a) => match index_val(a) {
                        None => post == pre && (r matches Response::NotANumber(x) && x@ == a),
                        Some(k) => {
                            if k < pre.list.count {
                                &&& post.phase is Ready
                                &&& post.list.contents() == pre.list.contents().remove(k)
                                &&& post.list.count == pre.list.count - 1
                                &&& r is Deleted
                            } else {
                                post == pre && r == Response::OutOfRange(clamp_index(k))
                            }
                        },
                    },
                }
            } else if "UPDATE"@.is_prefix_of(s) {
                match split_arg(s) {
                    None => post == pre && r is NoIndex,
                    Some(a) => match index_val(a) {
                        None => post == pre && (r matches Response::NotANumber(x) && x@ == a),
                        Some(k) => {
                            if k < pre.list.count {
                                &&& post.list == pre.list
                                &&& post.phase == Phase::Awaiting(clamp_index(k))
                                &&& r matches Response::Show(c) && c@ == pre.list.contents()[k]
                            } else {
                                post == pre && r == Response::OutOfRange(clamp_index(k))
                            }
                        },
                    },
                }
            } else if "TODO"@.is_prefix_of(s) {
                &&& post == pre
                &&& if pre.list.count == 0 {
                    r is Empty
                } else {
                    r matches Response::Listing(items) && items@.len() == pre.list.count
                        && (forall|i: int|
                        0 <= i < items@.len() ==> (#[trigger] items@[i]).0 == i
                            && items@[i].1.content@ == pre.list.contents()[i])
                }
            } else if s == "EXIT"@ {
                post == pre && r is Bye
            } else if s == "CLEAR"@ {
                &&& post.phase is Ready
                &&& post.list.count == 0
                &&& post.list.contents() == Seq::<Seq<char>>::empty()
                &&& r is Cleared
            } else {
                post == pre && (r matches Response::Unknown(x) && x@ == s)
            }
        },
    }
}

/// One interactive session: the store and the interpreter's phase.
pub struct Session {
    pub list: List,
    pub phase: Phase,
}

impl Session {
    /// The store invariant holds, and a pending update only ever addresses
    /// a live index.
    pub open spec fn wf(self) -> bool {
        &&& self.list.wf()
        &&& match self.phase {
            Phase::Awaiting(n) => n < self.list.count,
            Phase::Ready => true,
        }
    }

    /// A session over the given store, awaiting its first command.
    pub fn new(list: List) -> (s: Session)
        requires
            list.wf(),
        ensures
            s.wf(),
            s.list == list,
            s.phase is Ready,
    {
        Session { list, phase: Phase::Ready }
    }

    /// Processes one input line (without its terminator) and reports its
    /// outcome.
    pub fn step(&mut self, line: &str) -> (r: Response)
        requires
            old(self).wf(),
        ensures
            final(self).wf(),
            step_post(*old(self), *final(self), line@, r),
    {
        let v = chars_of(line);
        proof {
            assert(v@.skip(0) =~= v@);
        }
        let is_awaiting: bool = matches!(self.phase, Phase::Awaiting(_));
        if is_awaiting {
            let n: usize = match self.phase {
                Phase::Awaiting(k) => k,
                Phase::Ready => 0,
            };
            let prev = match self.list.update(n, line.to_owned()) {
                Ok(p) => p,
                Err(_) => {
                    proof {
                        assert(false);
                    }
                    String::new()
                },
            };
            self.phase = Phase::Ready;
            return Response::Updated(prev);
        }
        let add_kw = chars_of("ADD");
        let del_kw = chars_of("DEL");
        let update_kw = chars_of("UPDATE");
        let todo_kw = chars_of("TODO");
        let exit_kw = chars_of("EXIT");
        let clear_kw = chars_of("CLEAR");
        if matches_at(&v, 0, &add_kw) {
            proof {
                assert(v@.skip(0) =~= v@);
            }
            match arg_after_space(&v) {
                Some(a) => {
                    let content = string_from_chars(&a);
                    self.list.add_task(Task { content });
                },
                None => {
                    self.list.add_default();
                },
            }
            Response::Added
        } else if matches_at(&v, 0, &del_kw) {
            proof {
                assert(v@.skip(0) =~= v@);
            }
            match arg_after_space(&v) {
                None => Response::NoIndex,
                Some(a) => match parse_index(&a) {
                    None => Response::NotANumber(string_from_chars(&a)),
                    Some(n) => {
                        proof {
                            let k = index_val(a@)->0;
                            assert(n == clamp_index(k));
                            if k > usize::MAX as int {
                                assert(n == usize::MAX);
                            }
                            assert((n < self.list.count) == (k < self.list.count));
                        }
                        match self.list.del_task(n) {
                            Ok(_) => Response::Deleted,
                            Err(_) => Response::OutOfRange(n),
                        }
                    },
                },
            }
        } else if matches_at(&v, 0, &update_kw) {
            proof {
                assert(v@.skip(0) =~= v@);
            }
            match arg_after_space(&v) {
                None => Response::NoIndex,
                Some(a) => match parse_index(&a) {
                    None => Response::NotANumber(string_from_chars(&a)),
                    Some(n) => {
                        proof {
                            let k = index_val(a@)->0;
                            assert(n == clamp_index(k));
                            if k > usize::MAX as int {
                                assert(n == usize::MAX);
                            }
                            assert((n < self.list.count) == (k < self.list.count));
                        }
                        match self.list.get(n) {
                            Ok(t) => {
                                let shown = t.content.clone();
                                self.phase = Phase::Awaiting(n);
                                Response::Show(shown)
                            },
                            Err(_) => Response::OutOfRange(n),
                        }
                    },
                },
            }
        } else if matches_at(&v, 0, &todo_kw) {
            proof {
                assert(v@.skip(0) =~= v@);
            }
            if self.list.count == 0 {
                Response::Empty
            } else {
                Response::Listing(self.list.list())
            }
        } else if chars_eq(&v, &exit_kw) {
            Response::Bye
        } else if chars_eq(&v, &clear_kw) {
            self.list.clear();
            Response::Cleared
        } else {
            Response::Unknown(line.to_owned())
        }
    }
}

/// The feedback line a response prints, for responses whose message is a
/// single line; a listing and a shown task are laid out by the front end.
pub open spec fn message_of(r: Response) -> Option<Seq<char>> {
    match r {
        Response::Added => Some("Adding Task Successfully!"@),
        Response::Deleted => Some("Deleting Task Successfully!"@),
        Response::Updated(_) => Some("Updating Task Successfully!"@),
        Response::Show(_) => None,
        Response::OutOfRange(n) => Some("Index out of Range: "@ + dec_chars(n as int) + "."@),
        Response::NotANumber(x) => Some("Not a Number: "@ + x@ + "."@),
        Response::NoIndex => Some("No Index Specified."@),
        Response::Listing(_) => None,
        Response::Empty => Some("We have an empty todo list!"@),
        Response::Cleared => Some("Clear up the Todo List Successfully!"@),
        Response::Bye => Some("exiting the program..."@),
        Response::Unknown(x) => Some("unknown command: "@ + x@),
    }
}

/// Renders a response's feedback line.
pub fn render(r: &Response) -> (out: Option<String>)
    ensures
        match out {
            Some(m) => message_of(*r) == Some(m@),
            None => message_of(*r) is None,
        },
{
    match r {
        Response::Added => Some("Adding Task Successfully!".to_owned()),
        Response::Deleted => Some("Deleting Task Successfully!".to_owned()),
        Response::Updated(_) => Some("Updating Task Successfully!".to_owned()),
        Response::Show(_) => None,
        Response::OutOfRange(n) => {
            let mut m = "Index out of Range: ".to_owned();
            let digits = string_from_chars(&dec_usize(*n));
            m.append(digits.as_str());
            m.append(".");
            proof {
                assert(m@ =~= "Index out of Range: "@ + dec_chars(*n as int) + "."@);
            }
            Some(m)
        },
        Response::NotANumber(x) => {
            let mut m = "Not a Number: ".to_owned();
            m.append(x.as_str());
            m.append(".");
            proof {
                assert(m@ =~= "Not a Number: "@ + x@ + "."@);
            }
            Some(m)
        },
        Response::NoIndex => Some("No Index Specified.".to_owned()),
        Response::Listing(_) => None,
        Response::Empty => Some("We have an empty todo list!".to_owned()),
        Response::Cleared => Some("Clear up the Todo List Successfully!".to_owned()),
        Response::Bye => Some("exiting the program...".to_owned()),
        Response::Unknown(x) => {
            let mut m = "unknown command: ".to_owned();
            m.append(x.as_str());
            Some(m)
        },
    }
}

} // verus!

