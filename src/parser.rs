use crate::record::{Record, RecordView};
use vstd::prelude::*;
use vstd::string::{StrSliceExecFns, StringExecFns};

verus! {

/// Which records a listing shows.
#[derive(Debug)]
pub enum WhereClause {
    /// Records in which some field contains the keyword (case-sensitive).
    Keyword(String),
    /// Every record.
    All,
}

/// `needle` occurs in `hay` as a contiguous run.
pub open spec fn contains_seq(hay: Seq<char>, needle: Seq<char>) -> bool {
    exists|i: int|
        0 <= i && i + needle.len() <= hay.len() && #[trigger] hay.subrange(i, i + needle.len())
            == needle
}

/// Relies on `str::contains` with a string pattern: true exactly when the
/// pattern occurs in the string as a contiguous run of characters.
#[verifier::external_body]
fn str_contains(hay: &str, needle: &str) -> (r: bool)
    ensures
        r == contains_seq(hay@, needle@),
{
    hay.contains(needle)
}

impl WhereClause {
    /// Whether the clause selects a record with the given value.
    pub open spec fn selects(&self, r: RecordView) -> bool {
        match self {
            WhereClause::Keyword(k) => contains_seq(r.site, k@) || contains_seq(r.username, k@)
                || contains_seq(r.password, k@) || contains_seq(r.note, k@),
            WhereClause::All => true,
        }
    }

    pub fn check(&self, record: &Record) -> (r: bool)
        ensures
            r == self.selects(record@),
    {
        match self {
            WhereClause::Keyword(s) => {
                str_contains(record.site.as_str(), s.as_str()) || str_contains(
                    record.username.as_str(),
                    s.as_str(),
                ) || str_contains(record.password.as_str(), s.as_str()) || str_contains(
                    record.note.as_str(),
                    s.as_str(),
                )
            },
            WhereClause::All => true,
        }
    }
}

/// A command of the interactive loop, with its validated arguments.
#[derive(Debug)]
pub enum Op {
    Add,
    Del(usize),
    Ls(WhereClause),
    /// The index of the record and whether empty inputs keep old values.
    Mod(usize, bool),
    Import(String),
    Export(String),
    ChangePswd,
    Quit,
    /// A blank line.
    Empty,
}

pub const TOO_FEW_ARGS_MSG: &'static str = "Too few arguments";

pub const TOO_MANY_ARGS_MSG: &'static str = "Too many arguments. See usage.";

pub const INVALID_INDEX_MSG: &'static str = "Invalid index";

pub const UNKNOWN_COMMAND_MSG: &'static str = "Unknown command";

/// Every character is an ASCII decimal digit.
pub open spec fn all_digits(s: Seq<char>) -> bool {
    forall|i: int| 0 <= i < s.len() ==> '0' <= #[trigger] s[i] <= '9'
}

/// The number that a run of decimal digits spells.
pub open spec fn digits_value(s: Seq<char>) -> nat
    decreases s.len(),
{
    if s.len() == 0 {
        0
    } else {
        digits_value(s.drop_last()) * 10 + (s.last() as nat - '0' as nat) as nat
    }
}

/// The digits of an index argument: one leading `+` is allowed.
pub open spec fn index_digits(s: Seq<char>) -> Seq<char> {
    if s.len() > 0 && s[0] == '+' {
        s.drop_first()
    } else {
        s
    }
}

/// The index an argument spells: optionally `+`, then one or more decimal
/// digits whose value fits a `usize`.
pub open spec fn parsed_index(s: Seq<char>) -> Option<usize> {
    let d = index_digits(s);
    if d.len() > 0 && all_digits(d) && digits_value(d) <= usize::MAX {
        Some(digits_value(d) as usize)
    } else {
        None
    }
}

proof fn lemma_digits_value_grows(s: Seq<char>, i: int)
    requires
        0 <= i <= s.len(),
        all_digits(s),
    ensures
        digits_value(s.take(i)) <= digits_value(s),
    decreases s.len() - i,
{
    if i < s.len() {
        lemma_digits_value_grows(s, i + 1);
        assert(s.take(i + 1).drop_last() =~= s.take(i));
        assert('0' <= s[i] <= '9');
    } else {
        assert(s.take(i) =~= s);
    }
}

/// Reads a record index from a command argument.
pub fn parse_index(s: &String) -> (r: Option<usize>)
    ensures
        r == parsed_index(s@),
{
    let t = s.as_str();
    let n = t.unicode_len();
    let mut start: usize = 0;
    if n > 0 && t.get_char(0) == '+' {
        start = 1;
    }
    let ghost d = index_digits(s@);
    assert(d =~= s@.subrange(start as int, n as int));
    if start >= n {
        return None;
    }
    let mut i: usize = start;
    while i < n
        invariant
            start <= i <= n,
            n == s@.len(),
            t@ == s@,
            d == s@.subrange(start as int, n as int),
            d == index_digits(s@),
            forall|k: int| start <= k < i ==> '0' <= #[trigger] s@[k] <= '9',
        decreases n - i,
    {
        let c = t.get_char(i);
        if c < '0' || c > '9' {
            assert(d[i - start] == c);
            assert(!all_digits(d));
            return None;
        }
        i = i + 1;
    }
    assert(all_digits(d)) by {
        assert forall|k: int| 0 <= k < d.len() implies '0' <= #[trigger] d[k] <= '9' by {
            assert(d[k] == s@[k + start]);
        }
    }
    let mut value: usize = 0;
    let mut j: usize = start;
    while j < n
        invariant
            start <= j <= n,
            n == s@.len(),
            t@ == s@,
            d == s@.subrange(start as int, n as int),
            d == index_digits(s@),
            all_digits(d),
            value == digits_value(d.take(j - start)),
        decreases n - j,
    {
        let c = t.get_char(j);
        assert(c == d[j - start]);
        let digit = (c as u32 - '0' as u32) as usize;
        assert(d.take(j - start + 1).drop_last() =~= d.take(j - start));
        if value > (usize::MAX - digit) / 10 {
            proof {
                assert(value * 10 + digit > usize::MAX) by (nonlinear_arith)
                    requires
                        value > (usize::MAX - digit) / 10,
                        digit <= 9,
                ;
                let k = j - start;
                assert(d.take(k + 1).last() == c);
                assert(digits_value(d.take(k + 1)) == value * 10 + digit);
                lemma_digits_value_grows(d, k + 1);
            }
            return None;
        }
        proof {
            assert(value * 10 + digit <= usize::MAX) by (nonlinear_arith)
                requires
                    value <= (usize::MAX - digit) / 10,
                    digit <= 9,
            ;
        }
        value = value * 10 + digit;
        j = j + 1;
    }
    assert(d.take(n - start) =~= d);
    Some(value)
}

/// `s` is the word `w`.
fn is_word(s: &String, w: &str) -> (r: bool)
    ensures
        r == (s@ == w@),
{
    let t = String::from_str(w);
    *s == t
}

/// The argument-count rule of a command that takes no argument.
pub open spec fn no_args_outcome(n: int, op_ok: bool, r: Result<Op, &'static str>) -> bool {
    if n == 1 {
        op_ok
    } else {
        r == Err::<Op, &'static str>(TOO_MANY_ARGS_MSG)
    }
}

/// Turns the words of a command line into a command.
pub fn parse(args: Vec<String>) -> (r: Result<Op, &'static str>)
    ensures
        args@.len() == 0 ==> r matches Ok(Op::Empty),
        args@.len() > 0 ==> ({
            let n = args@.len() as int;
            let cmd = args@[0]@;
            let arg1 = if n > 1 {
                args@[1]@
            } else {
                Seq::<char>::empty()
            };
            &&& cmd == "add"@ ==> no_args_outcome(n, r matches Ok(Op::Add), r)
            &&& cmd == "chpswd"@ ==> no_args_outcome(n, r matches Ok(Op::ChangePswd), r)
            &&& cmd == "q"@ ==> no_args_outcome(n, r matches Ok(Op::Quit), r)
            &&& cmd == "del"@ ==> if n == 1 {
                r == Err::<Op, &'static str>(TOO_FEW_ARGS_MSG)
            } else if n == 2 {
                match parsed_index(arg1) {
                    Some(i) => r matches Ok(Op::Del(j)) && j == i,
                    None => r == Err::<Op, &'static str>(INVALID_INDEX_MSG),
                }
            } else {
                r == Err::<Op, &'static str>(TOO_MANY_ARGS_MSG)
            }
            &&& cmd == "ls"@ ==> if n == 1 {
                r matches Ok(Op::Ls(WhereClause::All))
            } else if n == 2 {
                r matches Ok(Op::Ls(WhereClause::Keyword(k))) && k@ == arg1
            } else {
                r == Err::<Op, &'static str>(TOO_MANY_ARGS_MSG)
            }
            &&& cmd == "mod"@ ==> if n == 1 {
                r == Err::<Op, &'static str>(TOO_FEW_ARGS_MSG)
            } else if n == 2 || (n == 3 && args@[2]@ == "-e"@) {
                match parsed_index(arg1) {
                    Some(i) => r matches Ok(Op::Mod(j, merge)) && j == i && merge == (n == 3),
                    None => r == Err::<Op, &'static str>(INVALID_INDEX_MSG),
                }
            } else {
                r == Err::<Op, &'static str>(TOO_MANY_ARGS_MSG)
            }
            &&& cmd == "import"@ ==> if n == 1 {
                r == Err::<Op, &'static str>(TOO_FEW_ARGS_MSG)
            } else if n == 2 {
                r matches Ok(Op::Import(p)) && p@ == arg1
            } else {
                r == Err::<Op, &'static str>(TOO_MANY_ARGS_MSG)
            }
            &&& cmd == "export"@ ==> if n == 1 {
                r == Err::<Op, &'static str>(TOO_FEW_ARGS_MSG)
            } else if n == 2 {
                r matches Ok(Op::Export(p)) && p@ == arg1
            } else {
                r == Err::<Op, &'static str>(TOO_MANY_ARGS_MSG)
            }
            &&& (cmd != "add"@ && cmd != "chpswd"@ && cmd != "q"@ && cmd != "del"@ && cmd
                != "ls"@ && cmd != "mod"@ && cmd != "import"@ && cmd != "export"@) ==> r == Err::<
                Op,
                &'static str,
            >(UNKNOWN_COMMAND_MSG)
        }),
{
    proof {
        reveal_strlit("add");
        reveal_strlit("chpswd");
        reveal_strlit("q");
        reveal_strlit("del");
        reveal_strlit("ls");
        reveal_strlit("mod");
        reveal_strlit("import");
        reveal_strlit("export");
        reveal_strlit("-e");
        assert("add"@[0] == 'a' && "chpswd"@[0] == 'c' && "q"@[0] == 'q' && "del"@[0] == 'd'
            && "ls"@[0] == 'l' && "mod"@[0] == 'm' && "import"@[0] == 'i' && "export"@[0] == 'e');
    }
    let n = args.len();
    if n == 0 {
        return Ok(Op::Empty);
    }
    let cmd = &args[0];
    if is_word(cmd, "add") {
        if n == 1 {
            Ok(Op::Add)
        } else {
            Err(TOO_MANY_ARGS_MSG)
        }
    } else if is_word(cmd, "chpswd") {
        if n == 1 {
            Ok(Op::ChangePswd)
        } else {
            Err(TOO_MANY_ARGS_MSG)
        }
    } else if is_word(cmd, "q") {
        if n == 1 {
            Ok(Op::Quit)
        } else {
            Err(TOO_MANY_ARGS_MSG)
        }
    } else if is_word(cmd, "del") {
        if n == 1 {
            Err(TOO_FEW_ARGS_MSG)
        } else if n == 2 {
            match parse_index(&args[1]) {
                Some(i) => Ok(Op::Del(i)),
                None => Err(INVALID_INDEX_MSG),
            }
        } else {
            Err(TOO_MANY_ARGS_MSG)
        }
    } else if is_word(cmd, "ls") {
        if n == 1 {
            Ok(Op::Ls(WhereClause::All))
        } else if n == 2 {
            Ok(Op::Ls(WhereClause::Keyword(args[1].clone())))
        } else {
            Err(TOO_MANY_ARGS_MSG)
        }
    } else if is_word(cmd, "mod") {
        if n == 1 {
            Err(TOO_FEW_ARGS_MSG)
        } else if n == 2 || (n == 3 && is_word(&args[2], "-e")) {
            match parse_index(&args[1]) {
                Some(i) => Ok(Op::Mod(i, n == 3)),
                None => Err(INVALID_INDEX_MSG),
            }
        } else {
            Err(TOO_MANY_ARGS_MSG)
        }
    } else if is_word(cmd, "import") {
        if n == 1 {
            Err(TOO_FEW_ARGS_MSG)
        } else if n == 2 {
            Ok(Op::Import(args[1].clone()))
        } else {
            Err(TOO_MANY_ARGS_MSG)
        }
    } else if is_word(cmd, "export") {
        if n == 1 {
            Err(TOO_FEW_ARGS_MSG)
        } else if n == 2 {
            Ok(Op::Export(args[1].clone()))
        } else {
            Err(TOO_MANY_ARGS_MSG)
        }
    } else {
        Err(UNKNOWN_COMMAND_MSG)
    }
}

} // verus!
