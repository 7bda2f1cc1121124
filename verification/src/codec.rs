//! Lossless percent-escaping of the five characters that a stored filename
//! must not carry: space, comma, `{`, `|` and `}`.
//!
//! `encode_filename` escapes each reserved character; `decode_filename` is the
//! exact inverse on every string that does not already carry one of the five
//! literal escape sequences.
use vstd::prelude::*;
use vstd::string::*;

use crate::strutil::push_char;

verus! {

/// The five characters that are escaped for storage.
pub open spec fn is_reserved_char(c: char) -> bool {
    c == ' ' || c == ',' || c == '{' || c == '|' || c == '}'
}

/// The three-character escape of one reserved character.
pub open spec fn escape_of(c: char) -> Seq<char> {
    if c == ' ' {
        seq!['%', '2', '0']
    } else if c == ',' {
        seq!['%', '2', 'C']
    } else if c == '{' {
        seq!['%', '7', 'B']
    } else if c == '|' {
        seq!['%', '7', 'C']
    } else {
        seq!['%', '7', 'D']
    }
}

/// What one character contributes to the encoded form.
pub open spec fn encoded_char(c: char) -> Seq<char> {
    if is_reserved_char(c) {
        escape_of(c)
    } else {
        seq![c]
    }
}

/// The encoded form of a whole string.
pub open spec fn encode_spec(s: Seq<char>) -> Seq<char>
    decreases s.len(),
{
    if s.len() == 0 {
        Seq::empty()
    } else {
        encoded_char(s[0]) + encode_spec(s.skip(1))
    }
}

/// Whether one of the five escape sequences starts at position `i` of `s`.
pub open spec fn escape_at(s: Seq<char>, i: int) -> bool {
    &&& 0 <= i
    &&& i + 3 <= s.len()
    &&& s[i] == '%'
    &&& {
        ||| s[i + 1] == '2' && (s[i + 2] == '0' || s[i + 2] == 'C')
        ||| s[i + 1] == '7' && (s[i + 2] == 'B' || s[i + 2] == 'C' || s[i + 2] == 'D')
    }
}

/// The character that the escape `%`-`c2`-`c3` stands for.
pub open spec fn unescaped(c2: char, c3: char) -> char {
    if c2 == '2' {
        if c3 == '0' {
            ' '
        } else {
            ','
        }
    } else {
        if c3 == 'B' {
            '{'
        } else if c3 == 'C' {
            '|'
        } else {
            '}'
        }
    }
}

/// The decoded form of a whole string: a left-to-right scan that turns each
/// escape sequence back into its character and keeps everything else.
pub open spec fn decode_spec(s: Seq<char>) -> Seq<char>
    decreases s.len(),
{
    if s.len() == 0 {
        Seq::empty()
    } else if escape_at(s, 0) {
        seq![unescaped(s[1], s[2])] + decode_spec(s.skip(3))
    } else {
        seq![s[0]] + decode_spec(s.skip(1))
    }
}

/// Whether `s` carries one of the five escape sequences anywhere.
pub open spec fn has_escape(s: Seq<char>) -> bool {
    exists|i: int| escape_at(s, i)
}

proof fn lemma_encode_push(s: Seq<char>, c: char)
    ensures
        encode_spec(s.push(c)) == encode_spec(s) + encoded_char(c),
    decreases s.len(),
{
    if s.len() == 0 {
        assert(s.push(c).skip(1) =~= Seq::<char>::empty());
        assert(s.push(c)[0] == c);
        assert(encode_spec(s.push(c)) == encoded_char(c) + encode_spec(Seq::<char>::empty()));
        assert(encode_spec(s.push(c)) =~= encode_spec(s) + encoded_char(c));
    } else {
        lemma_encode_push(s.skip(1), c);
        assert(s.push(c).skip(1) =~= s.skip(1).push(c));
        assert(s.push(c)[0] == s[0]);
        assert(encode_spec(s.push(c)) == encoded_char(s[0]) + (encode_spec(s.skip(1))
            + encoded_char(c)));
        assert(encode_spec(s.push(c)) =~= encode_spec(s) + encoded_char(c));
    }
}

/// Escapes the five reserved characters of `s`; all others pass unchanged.
pub fn encode_filename(s: &str) -> (r: String)
    ensures
        r@ == encode_spec(s@),
{
    let n = s.unicode_len();
    let mut out = String::new();
    let mut i: usize = 0;
    while i < n
        invariant
            n == s@.len(),
            0 <= i <= n,
            out@ == encode_spec(s@.take(i as int)),
        decreases n - i,
    {
        let c = s.get_char(i);
        if c == ' ' {
            out.append("%20");
        } else if c == ',' {
            out.append("%2C");
        } else if c == '{' {
            out.append("%7B");
        } else if c == '|' {
            out.append("%7C");
        } else if c == '}' {
            out.append("%7D");
        } else {
            push_char(&mut out, c);
        }
        proof {
            reveal_strlit("%20");
            reveal_strlit("%2C");
            reveal_strlit("%7B");
            reveal_strlit("%7C");
            reveal_strlit("%7D");
            assert(s@.take(i + 1) =~= s@.take(i as int).push(s@[i as int]));
            lemma_encode_push(s@.take(i as int), s@[i as int]);
            assert(out@ =~= encode_spec(s@.take(i + 1)));
        }
        i = i + 1;
    }
    proof {
        assert(s@.take(n as int) =~= s@);
    }
    out
}

/// Turns each escape sequence of `s` back into its character, scanning left
/// to right; everything else passes unchanged.
pub fn decode_filename(s: &str) -> (r: String)
    ensures
        r@ == decode_spec(s@),
{
    let n = s.unicode_len();
    let mut out = String::new();
    let mut i: usize = 0;
    proof {
        assert(s@.skip(0) =~= s@);
        assert(out@ + decode_spec(s@) =~= decode_spec(s@));
    }
    while i < n
        invariant
            n == s@.len(),
            0 <= i <= n,
            decode_spec(s@) == out@ + decode_spec(s@.skip(i as int)),
        decreases n - i,
    {
        let c = s.get_char(i);
        let mut used_escape = false;
        if c == '%' && n - i >= 3 {
            let c2 = s.get_char(i + 1);
            let c3 = s.get_char(i + 2);
            if (c2 == '2' && (c3 == '0' || c3 == 'C')) || (c2 == '7' && (c3 == 'B' || c3 == 'C'
                || c3 == 'D')) {
                used_escape = true;
                if c2 == '2' {
                    if c3 == '0' {
                        push_char(&mut out, ' ');
                    } else {
                        push_char(&mut out, ',');
                    }
                } else {
                    if c3 == 'B' {
                        push_char(&mut out, '{');
                    } else if c3 == 'C' {
                        push_char(&mut out, '|');
                    } else {
                        push_char(&mut out, '}');
                    }
                }
            }
        }
        if used_escape {
            proof {
                assert(escape_at(s@.skip(i as int), 0));
                assert(s@.skip(i as int).skip(3) =~= s@.skip(i + 3));
                assert(decode_spec(s@) =~= out@ + decode_spec(s@.skip(i + 3)));
            }
            i = i + 3;
        } else {
            push_char(&mut out, c);
            proof {
                assert(s@.skip(i as int)[0] == s@[i as int]);
                assert(!escape_at(s@.skip(i as int), 0));
                assert(s@.skip(i as int).skip(1) =~= s@.skip(i + 1));
                assert(decode_spec(s@.skip(i as int)) == seq![s@[i as int]] + decode_spec(
                    s@.skip(i + 1)));
                assert(decode_spec(s@) =~= out@ + decode_spec(s@.skip(i + 1)));
            }
            i = i + 1;
        }
    }
    proof {
        assert(s@.skip(n as int) =~= Seq::<char>::empty());
        assert(decode_spec(s@) =~= out@);
    }
    out
}

/// No suffix of an escape-free string carries an escape.
pub proof fn lemma_no_escape_skip(s: Seq<char>, k: int)
    requires
        !has_escape(s),
        0 <= k <= s.len(),
    ensures
        !has_escape(s.skip(k)),
{
    assert forall|i: int| !escape_at(s.skip(k), i) by {
        if escape_at(s.skip(k), i) {
            assert(escape_at(s, i + k));
        }
    }
}

/// The first characters of an encoded string: a reserved head becomes its
/// escape, any other head stays in place.
proof fn lemma_encode_head(s: Seq<char>)
    requires
        s.len() > 0,
    ensures
        is_reserved_char(s[0]) ==> encode_spec(s) == escape_of(s[0]) + encode_spec(s.skip(1)),
        !is_reserved_char(s[0]) ==> {
            &&& encode_spec(s).len() > 0
            &&& encode_spec(s)[0] == s[0]
            &&& encode_spec(s).skip(1) == encode_spec(s.skip(1))
        },
{
    if !is_reserved_char(s[0]) {
        assert(encode_spec(s) == seq![s[0]] + encode_spec(s.skip(1)));
        assert(encode_spec(s).skip(1) =~= encode_spec(s.skip(1)));
    }
}

/// Decoding inverts encoding on every string that does not already carry one
/// of the five literal escape sequences.
pub proof fn lemma_decode_encode_round_trip(s: Seq<char>)
    requires
        !has_escape(s),
    ensures
        decode_spec(encode_spec(s)) == s,
    decreases s.len(),
{
    if s.len() == 0 {
    } else {
        let c = s[0];
        let rest = s.skip(1);
        lemma_no_escape_skip(s, 1);
        lemma_decode_encode_round_trip(rest);
        if is_reserved_char(c) {
            lemma_encode_head(s);
            let e = encode_spec(s);
            assert(escape_at(e, 0));
            assert(unescaped(e[1], e[2]) == c);
            assert(e.skip(3) =~= encode_spec(rest));
            assert(decode_spec(e) =~= seq![c] + rest);
            assert(seq![c] + rest =~= s);
        } else {
            lemma_encode_head(s);
            let e = encode_spec(s);
            assert(e[0] == c);
            assert(!escape_at(e, 0)) by {
                if escape_at(e, 0) {
                    // The escape would have to be spelled out in `s` itself.
                    assert(c == '%');
                    assert(e.skip(1) == encode_spec(rest));
                    assert(rest.len() > 0) by {
                        if rest.len() == 0 {
                            assert(e.len() == 1);
                        }
                    }
                    lemma_encode_head(rest);
                    assert(!is_reserved_char(e[1]));
                    assert(rest[0] == e[1]) by {
                        if is_reserved_char(rest[0]) {
                            assert(encode_spec(rest)[0] == '%');
                        }
                    }
                    let rest2 = rest.skip(1);
                    assert(encode_spec(rest).skip(1) == encode_spec(rest2));
                    assert(rest2.len() > 0) by {
                        if rest2.len() == 0 {
                            assert(encode_spec(rest).len() == 1);
                            assert(e.len() == 2);
                        }
                    }
                    lemma_encode_head(rest2);
                    assert(rest2[0] == e[2]) by {
                        if is_reserved_char(rest2[0]) {
                            assert(encode_spec(rest2)[0] == '%');
                            assert(e[2] == '%');
                        }
                    }
                    assert(escape_at(s, 0)) by {
                        assert(s[1] == rest[0]);
                        assert(s[2] == rest[1]);
                        assert(rest[1] == rest2[0]);
                    }
                    assert(!escape_at(s, 0));
                }
            }
            assert(e.skip(1) == encode_spec(rest));
            assert(decode_spec(e) =~= seq![c] + decode_spec(encode_spec(rest)));
            assert(seq![c] + rest =~= s);
        }
    }
}

/// An encoded string of a line-safe string is blank-free: spaces become
/// escapes, and no other blank character was there to keep.
pub proof fn lemma_encode_no_ws(s: Seq<char>)
    requires
        !crate::strutil::contains_char(s, '\n'),
        !crate::strutil::contains_char(s, '\r'),
        !crate::strutil::contains_char(s, '\t'),
    ensures
        forall|i: int|
            0 <= i < encode_spec(s).len() ==> !crate::strutil::is_ws(#[trigger] encode_spec(s)[i]),
    decreases s.len(),
{
    if s.len() > 0 {
        let rest = s.skip(1);
        assert(!crate::strutil::contains_char(rest, '\n') && !crate::strutil::contains_char(
            rest,
            '\r',
        ) && !crate::strutil::contains_char(rest, '\t')) by {
            if crate::strutil::contains_char(rest, '\n') {
                let i = choose|i: int| 0 <= i < rest.len() && rest[i] == '\n';
                assert(s[i + 1] == '\n');
            }
            if crate::strutil::contains_char(rest, '\r') {
                let i = choose|i: int| 0 <= i < rest.len() && rest[i] == '\r';
                assert(s[i + 1] == '\r');
            }
            if crate::strutil::contains_char(rest, '\t') {
                let i = choose|i: int| 0 <= i < rest.len() && rest[i] == '\t';
                assert(s[i + 1] == '\t');
            }
        }
        lemma_encode_no_ws(rest);
        assert(s[0] != '\n' && s[0] != '\r' && s[0] != '\t');
        let head = encoded_char(s[0]);
        assert(forall|i: int| 0 <= i < head.len() ==> !crate::strutil::is_ws(#[trigger] head[i]));
        assert forall|i: int| 0 <= i < encode_spec(s).len() implies !crate::strutil::is_ws(
            #[trigger] encode_spec(s)[i],
        ) by {
            if i < head.len() {
                assert(encode_spec(s)[i] == head[i]);
            } else {
                assert(encode_spec(s)[i] == encode_spec(rest)[i - head.len()]);
            }
        }
    }
}

/// Encoding and taking the basename commute: the separator `/` is never
/// escaped and never appears inside an escape.
pub proof fn lemma_basename_encode_commute(s: Seq<char>)
    ensures
        crate::strutil::basename_spec(encode_spec(s)) == encode_spec(
            crate::strutil::basename_spec(s),
        ),
    decreases s.len(),
{
    if s.len() == 0 {
    } else {
        let t = s.drop_last();
        let c = s[s.len() - 1];
        lemma_basename_encode_commute(t);
        assert(s =~= t.push(c));
        lemma_encode_push(t, c);
        if c == '/' {
            assert(encoded_char(c) =~= seq!['/']);
            assert(encode_spec(s) =~= encode_spec(t).push('/'));
            assert(crate::strutil::basename_spec(encode_spec(s)) =~= Seq::<char>::empty());
            assert(crate::strutil::basename_spec(s) =~= Seq::<char>::empty());
        } else {
            let ec = encoded_char(c);
            assert(!crate::strutil::contains_char(ec, '/')) by {
                if crate::strutil::contains_char(ec, '/') {
                    let i = choose|i: int| 0 <= i < ec.len() && ec[i] == '/';
                }
            }
            crate::strutil::lemma_basename_append_no_slash(encode_spec(t), ec);
            assert(crate::strutil::basename_spec(encode_spec(s)) == crate::strutil::basename_spec(
                encode_spec(t),
            ) + ec);
            assert(crate::strutil::basename_spec(s) == crate::strutil::basename_spec(t).push(c));
            lemma_encode_push(crate::strutil::basename_spec(t), c);
            assert(encode_spec(crate::strutil::basename_spec(s)) == encode_spec(
                crate::strutil::basename_spec(t),
            ) + ec);
        }
    }
}

/// No suffix of an escape-free string carries an escape, stated for the
/// basename suffix.
pub proof fn lemma_basename_no_escape(s: Seq<char>)
    requires
        !has_escape(s),
    ensures
        !has_escape(crate::strutil::basename_spec(s)),
{
    crate::strutil::lemma_basename_suffix(s);
    lemma_no_escape_skip(s, s.len() - crate::strutil::basename_spec(s).len());
}

} // verus!
