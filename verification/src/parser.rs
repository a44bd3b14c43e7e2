//! The parts of parsing that work on plain text: string-literal escapes and
//! compound-assignment operators.

use vstd::prelude::*;

use crate::ast::AssignOp;
use crate::text::{push_char, str_eq};

verus! {

broadcast use vstd::string::group_string_axioms;

/// The assignment operator written `s`: `+=`, `-=`, `*=`, `/=`, `%=`, and
/// plain assignment for anything else.
pub open spec fn assign_op_of(s: Seq<char>) -> AssignOp {
    if s == "+="@ {
        AssignOp::AddAssign
    } else if s == "-="@ {
        AssignOp::SubAssign
    } else if s == "*="@ {
        AssignOp::MulAssign
    } else if s == "/="@ {
        AssignOp::DivAssign
    } else if s == "%="@ {
        AssignOp::RemAssign
    } else {
        AssignOp::Assign
    }
}

/// The assignment operator of its source text.
pub fn parse_assign_op(s: &str) -> (op: AssignOp)
    ensures
        op == assign_op_of(s@),
{
    if str_eq(s, "+=") {
        AssignOp::AddAssign
    } else if str_eq(s, "-=") {
        AssignOp::SubAssign
    } else if str_eq(s, "*=") {
        AssignOp::MulAssign
    } else if str_eq(s, "/=") {
        AssignOp::DivAssign
    } else if str_eq(s, "%=") {
        AssignOp::RemAssign
    } else {
        AssignOp::Assign
    }
}

/// The character an escape `\c` stands for, if `c` names one: `\n`, `\t`,
/// `\r`, `\\` and `\"`.
pub open spec fn escaped(c: char) -> Option<char> {
    if c == 'n' {
        Some('\n')
    } else if c == 't' {
        Some('\t')
    } else if c == 'r' {
        Some('\r')
    } else if c == '\\' {
        Some('\\')
    } else if c == '"' {
        Some('"')
    } else {
        None
    }
}

/// What the escape `\c` becomes: its character where `c` names one, else
/// the backslash and `c` unchanged.
pub open spec fn escape_text(c: char) -> Seq<char> {
    match escaped(c) {
        Some(e) => seq![e],
        None => seq!['\\', c],
    }
}

/// The text of a string literal with its escapes resolved: a known escape
/// becomes its character, an unknown escape `\c` stays as it is, and a
/// trailing lone backslash stays a backslash.
pub open spec fn unescape_spec(s: Seq<char>) -> Seq<char>
    decreases s.len(),
{
    if s.len() == 0 {
        Seq::empty()
    } else if s[0] == '\\' {
        if s.len() == 1 {
            seq!['\\']
        } else {
            escape_text(s[1]) + unescape_spec(s.subrange(2, s.len() as int))
        }
    } else {
        seq![s[0]] + unescape_spec(s.subrange(1, s.len() as int))
    }
}

/// Resolve the escapes of a string literal's body.
pub fn unescape(s: &str) -> (out: String)
    ensures
        out@ == unescape_spec(s@),
{
    let mut cs: Vec<char> = Vec::new();
    for c in it: s.chars()
        invariant
            it.seq() == s@,
            cs@ == s@.take(it.index()),
    {
        cs.push(c);
        proof {
            assert(cs@ =~= s@.take(it.index() + 1));
        }
    }
    assert(cs@ =~= s@);
    let ghost all = cs@;
    let mut out = String::new();
    let mut i: usize = 0;
    while i < cs.len()
        invariant
            i <= cs.len(),
            all == cs@,
            out@ + unescape_spec(all.subrange(i as int, all.len() as int)) == unescape_spec(all),
        decreases cs.len() - i,
    {
        let ghost rest = all.subrange(i as int, all.len() as int);
        let c = cs[i];
        if c == '\\' {
            if i + 1 < cs.len() {
                let d = cs[i + 1];
                assert(rest.subrange(2, rest.len() as int) =~= all.subrange(i + 2, all.len() as int));
                let ghost o = out@;
                if d == 'n' {
                    push_char(&mut out, '\n');
                } else if d == 't' {
                    push_char(&mut out, '\t');
                } else if d == 'r' {
                    push_char(&mut out, '\r');
                } else if d == '\\' {
                    push_char(&mut out, '\\');
                } else if d == '"' {
                    push_char(&mut out, '"');
                } else {
                    push_char(&mut out, '\\');
                    push_char(&mut out, d);
                }
                assert(out@ =~= o + escape_text(d));
                i += 2;
            } else {
                push_char(&mut out, '\\');
                assert(all.subrange(i as int + 1, all.len() as int) =~= Seq::<char>::empty());
                i += 1;
            }
        } else {
            push_char(&mut out, c);
            assert(rest.subrange(1, rest.len() as int) =~= all.subrange(i + 1, all.len() as int));
            i += 1;
        }
    }
    assert(all.subrange(cs.len() as int, all.len() as int) =~= Seq::<char>::empty());
    out
}

} // verus!
