//! The JSON report: one object with the message and the exit code.
use vstd::prelude::*;

use crate::commands::CommandOutcome;
use crate::util::{chars_of, concat3, i32_text, push_char, signed_decimal};

verus! {

/// How one character is written inside a JSON string.
pub open spec fn escape_char(c: char) -> Seq<char> {
    if c == '\\' {
        seq!['\\', '\\']
    } else if c == '"' {
        seq!['\\', '"']
    } else if c == '\n' {
        seq!['\\', 'n']
    } else if c == '\r' {
        seq!['\\', 'r']
    } else if c == '\t' {
        seq!['\\', 't']
    } else {
        seq![c]
    }
}

/// `s` written as the contents of a JSON string.
pub open spec fn escape_json_spec(s: Seq<char>) -> Seq<char>
    decreases s.len(),
{
    if s.len() == 0 {
        Seq::empty()
    } else {
        escape_json_spec(s.drop_last()) + escape_char(s.last())
    }
}

/// The JSON object `{"message":..., "exit_code":...}` for an outcome.
pub open spec fn json_spec(message: Seq<char>, exit_code: i32) -> Seq<char> {
    "{\"message\":\""@ + escape_json_spec(message) + "\",\"exit_code\":"@ + signed_decimal(exit_code as int)
        + "}"@
}

/// Escapes backslashes, quotes, newlines, carriage returns and tabs.
pub fn escape_json(value: &str) -> (r: String)
    ensures
        r@ == escape_json_spec(value@),
{
    let chars = chars_of(value);
    let mut escaped = String::new();
    let mut i: usize = 0;
    while i < chars.len()
        invariant
            i <= chars.len(),
            chars@ == value@,
            escaped@ == escape_json_spec(chars@.take(i as int)),
        decreases chars.len() - i,
    {
        let c = chars[i];
        assert(chars@.take(i + 1).drop_last() =~= chars@.take(i as int));
        let ghost before = escaped@;
        if c == '\\' {
            push_char(&mut escaped, '\\');
            push_char(&mut escaped, '\\');
        } else if c == '"' {
            push_char(&mut escaped, '\\');
            push_char(&mut escaped, '"');
        } else if c == '\n' {
            push_char(&mut escaped, '\\');
            push_char(&mut escaped, 'n');
        } else if c == '\r' {
            push_char(&mut escaped, '\\');
            push_char(&mut escaped, 'r');
        } else if c == '\t' {
            push_char(&mut escaped, '\\');
            push_char(&mut escaped, 't');
        } else {
            push_char(&mut escaped, c);
        }
        assert(escaped@ =~= before + escape_char(c));
        i += 1;
    }
    assert(chars@.take(chars.len() as int) =~= chars@);
    escaped
}

pub fn render(outcome: &CommandOutcome) -> (r: String)
    ensures
        r@ == json_spec(outcome.message@, outcome.exit_code),
{
    let mut r = concat3("{\"message\":\"", escape_json(outcome.message.as_str()).as_str(), "\",\"exit_code\":");
    r.append(i32_text(outcome.exit_code).as_str());
    r.append("}");
    r
}

/// The escaped text holds no raw line breaks or tabs, so the JSON string stays
/// on one line.
pub proof fn law_escaped_text_has_no_control_breaks(s: Seq<char>)
    ensures
        !escape_json_spec(s).contains('\n'),
        !escape_json_spec(s).contains('\r'),
        !escape_json_spec(s).contains('\t'),
    decreases s.len(),
{
    if s.len() > 0 {
        law_escaped_text_has_no_control_breaks(s.drop_last());
        let a = escape_json_spec(s.drop_last());
        let b = escape_char(s.last());
        assert forall|c: char| (c == '\n' || c == '\r' || c == '\t') implies !(a + b).contains(c) by {
            if (a + b).contains(c) {
                let k = choose|k: int| 0 <= k < (a + b).len() && (a + b)[k] == c;
                if k < a.len() {
                    assert(a[k] == c);
                } else {
                    assert(b[k - a.len()] == c);
                }
            }
        }
    }
}

/// Reads back the escapes a JSON string holds: `\\`, `\"`, `\n`, `\r` and
/// `\t` stand for the character they name; any other character stands for itself.
pub open spec fn unescape_json_spec(s: Seq<char>) -> Seq<char>
    decreases s.len(),
{
    if s.len() == 0 {
        Seq::empty()
    } else if s[0] == '\\' && s.len() >= 2 {
        let c = s[1];
        let d = if c == 'n' {
            '\n'
        } else if c == 'r' {
            '\r'
        } else if c == 't' {
            '\t'
        } else {
            c
        };
        seq![d] + unescape_json_spec(s.skip(2))
    } else {
        seq![s[0]] + unescape_json_spec(s.skip(1))
    }
}

proof fn lemma_escape_front(s: Seq<char>)
    requires
        s.len() > 0,
    ensures
        escape_json_spec(s) =~= escape_char(s[0]) + escape_json_spec(s.drop_first()),
    decreases s.len(),
{
    if s.len() == 1 {
        assert(s.drop_last() =~= Seq::<char>::empty());
        assert(s.drop_first() =~= Seq::<char>::empty());
    } else {
        lemma_escape_front(s.drop_last());
        assert(s.drop_last().drop_first() =~= s.drop_first().drop_last());
        assert(s.drop_first().last() == s.last());
        assert(s.drop_last()[0] == s[0]);
    }
}

proof fn lemma_unescape_char(c: char, rest: Seq<char>)
    ensures
        unescape_json_spec(escape_char(c) + rest) =~= seq![c] + unescape_json_spec(rest),
{
    let e = escape_char(c) + rest;
    if c == '\\' || c == '"' || c == '\n' || c == '\r' || c == '\t' {
        assert(e[0] == '\\');
        assert(e.skip(2) =~= rest);
    } else {
        assert(e[0] == c);
        assert(e.skip(1) =~= rest);
    }
}

/// Reading back the escaped text gives the original text: the JSON string
/// carries the message exactly.
pub proof fn law_escape_json_round_trip(s: Seq<char>)
    ensures
        unescape_json_spec(escape_json_spec(s)) == s,
    decreases s.len(),
{
    if s.len() > 0 {
        lemma_escape_front(s);
        law_escape_json_round_trip(s.drop_first());
        lemma_unescape_char(s[0], escape_json_spec(s.drop_first()));
        assert(seq![s[0]] + s.drop_first() =~= s);
    }
}

} // verus!
