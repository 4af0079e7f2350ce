//! Escaping of attribute values and help text: backslash, double quote and
//! newline are written as two-character escapes, everything else passes
//! through unchanged.

use vstd::prelude::*;
use vstd::string::StrSliceExecFns;

verus! {

/// A character that must not appear raw in an escaped value.
pub open spec fn is_special_char(c: char) -> bool {
    c == '\\' || c == '"' || c == '\n'
}

/// The escape of one character.
pub open spec fn spec_escape_char(c: char) -> Seq<char> {
    if c == '\\' {
        seq!['\\', '\\']
    } else if c == '"' {
        seq!['\\', '"']
    } else if c == '\n' {
        seq!['\\', 'n']
    } else {
        seq![c]
    }
}

/// The escape of a value, character by character.
pub open spec fn spec_escape(s: Seq<char>) -> Seq<char> {
    crate::text::concat_map(s, |c: char| spec_escape_char(c))
}

/// The inverse scan: a backslash followed by an escape code yields the
/// escaped character, anything else passes through.
pub open spec fn spec_unescape(t: Seq<char>) -> Seq<char>
    decreases t.len(),
{
    if t.len() == 0 {
        Seq::empty()
    } else if t[0] == '\\' && t.len() >= 2 {
        seq![if t[1] == 'n' {
            '\n'
        } else {
            t[1]
        }] + spec_unescape(t.skip(2))
    } else {
        seq![t[0]] + spec_unescape(t.drop_first())
    }
}

/// A scan of escaped text finds no raw special character: every backslash
/// starts a two-character escape, and no bare quote or newline occurs.
pub open spec fn spec_escape_clean(t: Seq<char>) -> bool
    decreases t.len(),
{
    if t.len() == 0 {
        true
    } else if t[0] == '\\' {
        t.len() >= 2 && (t[1] == '\\' || t[1] == '"' || t[1] == 'n') && spec_escape_clean(t.skip(2))
    } else {
        !is_special_char(t[0]) && spec_escape_clean(t.drop_first())
    }
}

/// Appends `value` to `f` in escaped form. Does not put quotes around it.
pub fn write_escaped(f: &mut String, value: &str)
    ensures
        final(f)@ == old(f)@ + spec_escape(value@),
{
    let n: usize = value.unicode_len();
    let mut i: usize = 0;
    proof {
        assert(value@.subrange(0, 0) =~= Seq::<char>::empty());
        assert(old(f)@ + spec_escape(value@.subrange(0, 0)) =~= old(f)@);
    }
    while i < n
        invariant
            n == value@.len(),
            i <= n,
            f@ == old(f)@ + spec_escape(value@.subrange(0, i as int)),
        decreases n - i,
    {
        let c = value.get_char(i);
        if c == '\\' {
            crate::text::string_push(f, '\\');
            crate::text::string_push(f, '\\');
        } else if c == '"' {
            crate::text::string_push(f, '\\');
            crate::text::string_push(f, '"');
        } else if c == '\n' {
            crate::text::string_push(f, '\\');
            crate::text::string_push(f, 'n');
        } else {
            crate::text::string_push(f, c);
        }
        proof {
            let pre = value@.subrange(0, i as int);
            let post = value@.subrange(0, i + 1 as int);
            assert(post.drop_last() =~= pre);
            assert(post.last() == c);
            crate::text::lemma_concat_map_snoc(post, |ch: char| spec_escape_char(ch));
            assert(f@ =~= old(f)@ + spec_escape(post));
        }
        i = i + 1;
    }
    proof {
        assert(value@.subrange(0, n as int) =~= value@);
    }
}

/// Recovers the original value from escaped text.
pub fn unescape_value(value: &str) -> (r: String)
    ensures
        r@ == spec_unescape(value@),
{
    let n: usize = value.unicode_len();
    let mut out = String::new();
    let mut i: usize = 0;
    proof {
        assert(value@.skip(0) =~= value@);
    }
    while i < n
        invariant
            n == value@.len(),
            i <= n,
            spec_unescape(value@) == out@ + spec_unescape(value@.skip(i as int)),
        decreases n - i,
    {
        let c = value.get_char(i);
        proof {
            assert(value@.skip(i as int)[0] == c);
        }
        if c == '\\' && i + 1 < n {
            let e = value.get_char(i + 1);
            proof {
                assert(value@.skip(i as int)[1] == e);
                assert(value@.skip(i as int).skip(2) =~= value@.skip(i + 2 as int));
            }
            let decoded = if e == 'n' {
                '\n'
            } else {
                e
            };
            crate::text::string_push(&mut out, decoded);
            i = i + 2;
        } else {
            proof {
                assert(value@.skip(i as int).drop_first() =~= value@.skip(i + 1 as int));
                if c == '\\' {
                    assert(value@.skip(i as int).len() == n - i);
                }
            }
            crate::text::string_push(&mut out, c);
            i = i + 1;
        }
    }
    proof {
        assert(value@.skip(n as int) =~= Seq::<char>::empty());
        assert(out@ + Seq::<char>::empty() =~= out@);
    }
    out
}

/// Escaped text scans clean: no raw backslash, quote, or newline remains.
pub proof fn lemma_escape_clean(s: Seq<char>)
    ensures
        spec_escape_clean(spec_escape(s)),
    decreases s.len(),
{
    if s.len() == 0 {
    } else {
        lemma_escape_clean(s.drop_first());
        let t = spec_escape(s);
        let tail = spec_escape(s.drop_first());
        assert(t == spec_escape_char(s[0]) + tail);
        if is_special_char(s[0]) {
            assert(t.len() >= 2);
            assert(t[0] == '\\');
            assert(t.skip(2) =~= tail);
        } else {
            assert(t[0] == s[0]);
            assert(t.drop_first() =~= tail);
        }
    }
}

/// Unescaping an escaped value recovers the original value.
pub proof fn lemma_escape_roundtrip(s: Seq<char>)
    ensures
        spec_unescape(spec_escape(s)) == s,
    decreases s.len(),
{
    if s.len() == 0 {
        assert(spec_unescape(spec_escape(s)) =~= s);
    } else {
        lemma_escape_roundtrip(s.drop_first());
        let t = spec_escape(s);
        let tail = spec_escape(s.drop_first());
        assert(t == spec_escape_char(s[0]) + tail);
        if s[0] == '\\' {
            assert(t[0] == '\\' && t[1] == '\\');
            assert(t.skip(2) =~= tail);
            assert(spec_unescape(t) =~= seq![s[0]] + s.drop_first());
        } else if s[0] == '"' {
            assert(t[0] == '\\' && t[1] == '"');
            assert(t.skip(2) =~= tail);
            assert(spec_unescape(t) =~= seq![s[0]] + s.drop_first());
        } else if s[0] == '\n' {
            assert(t[0] == '\\' && t[1] == 'n');
            assert(t.skip(2) =~= tail);
            assert(spec_unescape(t) =~= seq![s[0]] + s.drop_first());
        } else {
            assert(t[0] == s[0]);
            assert(t[0] != '\\');
            assert(t.drop_first() =~= tail);
            assert(spec_unescape(t) =~= seq![s[0]] + s.drop_first());
        }
        assert(seq![s[0]] + s.drop_first() =~= s);
    }
}

} // verus!
