use vstd::prelude::*;
use vstd::string::StrSliceExecFns;

verus! {

/// Relies on std's `String::push`: appends the given character to the end of
/// the string.
pub assume_specification[ String::push ](s: &mut String, c: char)
    ensures
        final(s)@ == old(s)@.push(c),
;

/// The characters of a string slice, collected into a vector.
pub fn chars_of(s: &str) -> (r: Vec<char>)
    ensures
        r@ == s@,
{
    let n = s.unicode_len();
    let mut r: Vec<char> = Vec::new();
    let mut i: usize = 0;
    while i < n
        invariant
            n == s@.len(),
            i <= n,
            r@ == s@.take(i as int),
        decreases n - i,
    {
        let c = s.get_char(i);
        r.push(c);
        proof {
            assert(s@.take(i as int + 1) =~= s@.take(i as int).push(s@[i as int]));
        }
        i = i + 1;
    }
    proof {
        assert(s@.take(n as int) =~= s@);
    }
    r
}

/// One character of field text in its on-disk form: backslash, double quote,
/// newline and carriage return become two-character escapes (the last two so
/// that a record always fits on one line); every other character stands for
/// itself.
pub open spec fn escape_char(c: char) -> Seq<char> {
    if c == '\\' {
        seq!['\\', '\\']
    } else if c == '"' {
        seq!['\\', '"']
    } else if c == '\n' {
        seq!['\\', 'n']
    } else if c == '\r' {
        seq!['\\', 'r']
    } else {
        seq![c]
    }
}

/// The inverse of `escape_char` on its two-character forms: which character a
/// backslash followed by `c` denotes, if any.
pub open spec fn unescape_char(c: char) -> Option<char> {
    if c == '\\' {
        Some('\\')
    } else if c == '"' {
        Some('"')
    } else if c == 'n' {
        Some('\n')
    } else if c == 'r' {
        Some('\r')
    } else {
        None
    }
}

/// A whole text field in its on-disk form.
pub open spec fn escape(s: Seq<char>) -> Seq<char>
    decreases s.len(),
{
    if s.len() == 0 {
        Seq::empty()
    } else {
        escape_char(s[0]) + escape(s.drop_first())
    }
}

proof fn lemma_escape_snoc(s: Seq<char>, c: char)
    ensures
        escape(s.push(c)) == escape(s) + escape_char(c),
    decreases s.len(),
{
    assert(escape(Seq::<char>::empty()) =~= Seq::<char>::empty());
    if s.len() == 0 {
        assert(s.push(c).drop_first() =~= Seq::<char>::empty());
        assert(s.push(c)[0] == c);
        assert(escape(s.push(c)) == escape_char(c) + escape(Seq::<char>::empty()));
        assert(escape(s.push(c)) =~= escape(s) + escape_char(c));
    } else {
        assert(s.push(c).drop_first() =~= s.drop_first().push(c));
        assert(s.push(c)[0] == s[0]);
        lemma_escape_snoc(s.drop_first(), c);
        assert(escape(s.push(c)) == escape_char(s[0]) + (escape(s.drop_first()) + escape_char(c)));
        assert(escape(s) == escape_char(s[0]) + escape(s.drop_first()));
        assert(escape(s.push(c)) =~= escape(s) + escape_char(c));
    }
}

fn push_escaped_char(out: &mut String, c: char)
    ensures
        final(out)@ == old(out)@ + escape_char(c),
{
    if c == '\\' {
        out.push('\\');
        out.push('\\');
    } else if c == '"' {
        out.push('\\');
        out.push('"');
    } else if c == '\n' {
        out.push('\\');
        out.push('n');
    } else if c == '\r' {
        out.push('\\');
        out.push('r');
    } else {
        out.push(c);
    }
    proof {
        assert(out@ =~= old(out)@ + escape_char(c));
    }
}

/// Appends the on-disk form of `s` to `out`.
pub fn append_escaped(out: &mut String, s: &str)
    ensures
        final(out)@ == old(out)@ + escape(s@),
{
    let n = s.unicode_len();
    let mut i: usize = 0;
    proof {
        assert(old(out)@ + escape(s@.take(0)) =~= old(out)@);
    }
    while i < n
        invariant
            n == s@.len(),
            i <= n,
            out@ == old(out)@ + escape(s@.take(i as int)),
        decreases n - i,
    {
        let c = s.get_char(i);
        push_escaped_char(out, c);
        proof {
            assert(s@.take(i as int).push(s@[i as int]) =~= s@.take(i as int + 1));
            lemma_escape_snoc(s@.take(i as int), s@[i as int]);
            assert(
                (old(out)@ + escape(s@.take(i as int))) + escape_char(s@[i as int])
                =~= old(out)@ + escape(s@.take(i as int + 1))
            );
        }
        i = i + 1;
    }
    proof {
        assert(s@.take(n as int) =~= s@);
    }
}

/// Decodes an on-disk text field from the front of `s`, up to and including
/// its closing double quote. Yields the decoded text and what follows the
/// quote; `None` when no well-formed field starts `s`.
pub open spec fn parse_string(s: Seq<char>) -> Option<(Seq<char>, Seq<char>)>
    decreases s.len(),
{
    if s.len() == 0 {
        None
    } else if s[0] == '"' {
        Some((Seq::empty(), s.drop_first()))
    } else if s[0] == '\\' {
        if s.len() < 2 {
            None
        } else {
            match unescape_char(s[1]) {
                Some(c) => match parse_string(s.skip(2)) {
                    Some(p) => Some((seq![c] + p.0, p.1)),
                    None => None,
                },
                None => None,
            }
        }
    } else if s[0] == '\n' || s[0] == '\r' {
        None
    } else {
        match parse_string(s.drop_first()) {
            Some(p) => Some((seq![s[0]] + p.0, p.1)),
            None => None,
        }
    }
}

/// Escaping a text and closing the quote always parses back to that text,
/// with the remainder untouched.
pub proof fn lemma_parse_escaped(s: Seq<char>, rest: Seq<char>)
    ensures
        parse_string(escape(s) + seq!['"'] + rest) == Some((s, rest)),
    decreases s.len(),
{
    let w = escape(s) + seq!['"'] + rest;
    if s.len() == 0 {
        assert(escape(s) =~= Seq::<char>::empty());
        assert(w =~= seq!['"'] + rest);
        assert(w[0] == '"');
        assert(w.drop_first() =~= rest);
    } else {
        let c = s[0];
        lemma_parse_escaped(s.drop_first(), rest);
        let w2 = escape(s.drop_first()) + seq!['"'] + rest;
        if c == '\\' || c == '"' || c == '\n' || c == '\r' {
            assert(w[0] == '\\');
            assert(w.len() >= 2);
            assert(w[1] == escape_char(c)[1]);
            assert(unescape_char(escape_char(c)[1]) == Some(c));
            assert(w.skip(2) =~= w2);
            assert(seq![c] + s.drop_first() =~= s);
        } else {
            assert(w[0] == c);
            assert(w.drop_first() =~= w2);
            assert(seq![c] + s.drop_first() =~= s);
        }
    }
}

/// Decodes an on-disk text field of `cs` starting at position `start`.
/// Yields the decoded text and the position just past the closing quote.
pub fn parse_string_at(cs: &Vec<char>, start: usize) -> (r: Option<(String, usize)>)
    requires
        start <= cs.len(),
    ensures
        (match r {
            Some(p) => p.1 <= cs.len() && parse_string(cs@.skip(start as int)) == Some(
                (p.0@, cs@.skip(p.1 as int)),
            ),
            None => parse_string(cs@.skip(start as int)) is None,
        }),
{
    let mut i: usize = start;
    let mut acc = String::new();
    loop
        invariant
            start <= i <= cs.len(),
            (match parse_string(cs@.skip(i as int)) {
                Some(p) => parse_string(cs@.skip(start as int)) == Some((acc@ + p.0, p.1)),
                None => parse_string(cs@.skip(start as int)) is None,
            }),
        decreases cs.len() - i,
    {
        if i >= cs.len() {
            proof {
                assert(cs@.skip(i as int) =~= Seq::<char>::empty());
            }
            return None;
        }
        let c = cs[i];
        proof {
            assert(cs@.skip(i as int)[0] == cs@[i as int]);
        }
        if c == '"' {
            proof {
                assert(cs@.skip(i as int).drop_first() =~= cs@.skip(i as int + 1));
                let p0 = parse_string(cs@.skip(i as int))->Some_0;
                assert(acc@ + p0.0 =~= acc@);
            }
            return Some((acc, i + 1));
        } else if c == '\\' {
            if i + 1 >= cs.len() {
                proof {
                    assert(cs@.skip(i as int).len() < 2);
                }
                return None;
            }
            let e = cs[i + 1];
            proof {
                assert(cs@.skip(i as int)[1] == cs@[i as int + 1]);
            }
            let d: char;
            if e == '\\' {
                d = '\\';
            } else if e == '"' {
                d = '"';
            } else if e == 'n' {
                d = '\n';
            } else if e == 'r' {
                d = '\r';
            } else {
                return None;
            }
            proof {
                assert(unescape_char(cs@[i as int + 1]) == Some(d));
                assert(cs@.skip(i as int).skip(2) =~= cs@.skip(i as int + 2));
                if parse_string(cs@.skip(i as int + 2)) is Some {
                    let p = parse_string(cs@.skip(i as int + 2))->Some_0;
                    assert(acc@ + (seq![d] + p.0) =~= acc@.push(d) + p.0);
                }
            }
            acc.push(d);
            i = i + 2;
        } else if c == '\n' || c == '\r' {
            return None;
        } else {
            proof {
                assert(cs@.skip(i as int).drop_first() =~= cs@.skip(i as int + 1));
                if parse_string(cs@.skip(i as int + 1)) is Some {
                    let p = parse_string(cs@.skip(i as int + 1))->Some_0;
                    assert(acc@ + (seq![cs@[i as int]] + p.0) =~= acc@.push(cs@[i as int]) + p.0);
                }
            }
            acc.push(c);
            i = i + 1;
        }
    }
}

} // verus!
