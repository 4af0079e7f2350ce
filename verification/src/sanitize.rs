//! The name sanitizer: rewrites an arbitrary name into the legal metric
//! name charset, collapsing runs of illegal characters into one underscore
//! and shielding a leading digit.

use vstd::prelude::*;
use vstd::string::StrSliceExecFns;

verus! {

/// A character that may pass through the sanitizer unchanged.
pub open spec fn is_name_char(c: char) -> bool {
    let u = c as u32;
    (('a' as u32) <= u && u <= ('z' as u32)) || (('A' as u32) <= u && u <= ('Z' as u32)) || ((
    '0' as u32) <= u && u <= ('9' as u32)) || u == (':' as u32)
}

pub open spec fn is_digit_char(c: char) -> bool {
    ('0' as u32) <= (c as u32) && (c as u32) <= ('9' as u32)
}

/// A character that the sanitizer may emit.
pub open spec fn is_output_char(c: char) -> bool {
    is_name_char(c) || c == '_'
}

/// One left-to-right pass over the name with a single flag of lookback:
/// legal characters pass through, a run of illegal characters becomes one
/// underscore, and `prev_us` says whether an underscore was just emitted.
pub open spec fn spec_sanitize_rec(s: Seq<char>, prev_us: bool) -> Seq<char>
    decreases s.len(),
{
    if s.len() == 0 {
        Seq::empty()
    } else if is_name_char(s[0]) {
        seq![s[0]] + spec_sanitize_rec(s.drop_first(), false)
    } else if prev_us {
        spec_sanitize_rec(s.drop_first(), true)
    } else {
        seq!['_'] + spec_sanitize_rec(s.drop_first(), true)
    }
}

/// The sanitized form of a name: a leading underscore when the name starts
/// with a digit, then the single collapsing pass.
pub open spec fn spec_sanitize(s: Seq<char>) -> Seq<char> {
    if s.len() > 0 && is_digit_char(s[0]) {
        seq!['_'] + spec_sanitize_rec(s, true)
    } else {
        spec_sanitize_rec(s, false)
    }
}

fn name_char(c: char) -> (r: bool)
    ensures
        r == is_name_char(c),
{
    let u = c as u32;
    (97 <= u && u <= 122) || (65 <= u && u <= 90) || (48 <= u && u <= 57) || u == 58
}

fn digit_char(c: char) -> (r: bool)
    ensures
        r == is_digit_char(c),
{
    let u = c as u32;
    48 <= u && u <= 57
}

/// Appends `name` to `f` in sanitized form.
pub fn write_sanitized_name(f: &mut String, name: &str)
    ensures
        final(f)@ == old(f)@ + spec_sanitize(name@),
{
    let n: usize = name.unicode_len();
    let mut prev_us = false;
    if n > 0 {
        let c0 = name.get_char(0);
        if digit_char(c0) {
            crate::text::string_push(f, '_');
            prev_us = true;
        }
    }
    let mut i: usize = 0;
    proof {
        assert(name@.skip(0) =~= name@);
    }
    while i < n
        invariant
            n == name@.len(),
            i <= n,
            old(f)@ + spec_sanitize(name@) == f@ + spec_sanitize_rec(name@.skip(i as int), prev_us),
        decreases n - i,
    {
        let c = name.get_char(i);
        proof {
            assert(name@.skip(i as int)[0] == c);
            assert(name@.skip(i as int).drop_first() =~= name@.skip(i + 1 as int));
        }
        if name_char(c) {
            crate::text::string_push(f, c);
            proof {
                assert(f@ + spec_sanitize_rec(name@.skip(i + 1 as int), false) =~= f@.drop_last()
                    + spec_sanitize_rec(name@.skip(i as int), prev_us));
            }
            prev_us = false;
        } else if prev_us {
        } else {
            crate::text::string_push(f, '_');
            proof {
                assert(f@ + spec_sanitize_rec(name@.skip(i + 1 as int), true) =~= f@.drop_last()
                    + spec_sanitize_rec(name@.skip(i as int), prev_us));
            }
            prev_us = true;
        }
        i = i + 1;
    }
    proof {
        assert(name@.skip(n as int) =~= Seq::<char>::empty());
        assert(f@ + Seq::<char>::empty() =~= f@);
    }
}

proof fn lemma_sanitize_rec_shape(s: Seq<char>, prev_us: bool)
    ensures
        forall|i: int|
            0 <= i < spec_sanitize_rec(s, prev_us).len() ==> is_output_char(
                #[trigger] spec_sanitize_rec(s, prev_us)[i],
            ),
        forall|i: int|
            0 <= i < spec_sanitize_rec(s, prev_us).len() - 1 ==> !(#[trigger] spec_sanitize_rec(
                s,
                prev_us,
            )[i] == '_' && spec_sanitize_rec(s, prev_us)[i + 1] == '_'),
        prev_us && spec_sanitize_rec(s, prev_us).len() > 0 ==> spec_sanitize_rec(s, prev_us)[0]
            != '_',
    decreases s.len(),
{
    if s.len() == 0 {
    } else {
        let r = spec_sanitize_rec(s, prev_us);
        if is_name_char(s[0]) {
            lemma_sanitize_rec_shape(s.drop_first(), false);
            let tail = spec_sanitize_rec(s.drop_first(), false);
            assert(r == seq![s[0]] + tail);
            assert(s[0] != '_');
            assert forall|i: int| 0 <= i < r.len() - 1 implies !(#[trigger] r[i] == '_' && r[i + 1]
                == '_') by {
                if i > 0 {
                    assert(r[i] == tail[i - 1]);
                    assert(r[i + 1] == tail[i]);
                }
            }
        } else if prev_us {
            lemma_sanitize_rec_shape(s.drop_first(), true);
        } else {
            lemma_sanitize_rec_shape(s.drop_first(), true);
            let tail = spec_sanitize_rec(s.drop_first(), true);
            assert(r == seq!['_'] + tail);
            assert forall|i: int| 0 <= i < r.len() - 1 implies !(#[trigger] r[i] == '_' && r[i + 1]
                == '_') by {
                if i == 0 {
                    assert(r[1] == tail[0]);
                } else {
                    assert(r[i] == tail[i - 1]);
                    assert(r[i + 1] == tail[i]);
                }
            }
        }
    }
}

/// The sanitizer's guarantees: every output character is legal, no two
/// underscores stand side by side, the output never starts with a digit,
/// and a name that starts with a digit gains a leading underscore.
pub proof fn lemma_sanitized_shape(s: Seq<char>)
    ensures
        forall|i: int|
            0 <= i < spec_sanitize(s).len() ==> is_output_char(#[trigger] spec_sanitize(s)[i]),
        forall|i: int|
            0 <= i < spec_sanitize(s).len() - 1 ==> !(#[trigger] spec_sanitize(s)[i] == '_'
                && spec_sanitize(s)[i + 1] == '_'),
        spec_sanitize(s).len() > 0 ==> !is_digit_char(spec_sanitize(s)[0]),
        s.len() > 0 && is_digit_char(s[0]) ==> spec_sanitize(s).len() > 0 && spec_sanitize(s)[0]
            == '_',
{
    let out = spec_sanitize(s);
    if s.len() > 0 && is_digit_char(s[0]) {
        lemma_sanitize_rec_shape(s, true);
        let tail = spec_sanitize_rec(s, true);
        assert(out == seq!['_'] + tail);
        assert forall|i: int| 0 <= i < out.len() implies is_output_char(#[trigger] out[i]) by {
            if i > 0 {
                assert(out[i] == tail[i - 1]);
            }
        }
        assert forall|i: int| 0 <= i < out.len() - 1 implies !(#[trigger] out[i] == '_' && out[i
            + 1] == '_') by {
            if i == 0 {
                assert(is_name_char(s[0]));
                assert(tail[0] == s[0]);
                assert(out[1] == tail[0]);
            } else {
                assert(out[i] == tail[i - 1]);
                assert(out[i + 1] == tail[i]);
            }
        }
    } else {
        lemma_sanitize_rec_shape(s, false);
        if out.len() > 0 && is_digit_char(out[0]) {
            assert(s.len() > 0);
            if is_name_char(s[0]) {
                assert(out[0] == s[0]);
                assert(is_digit_char(s[0]));
                assert(false);
            } else {
                assert(out[0] == '_');
                assert(false);
            }
        }
    }
}

} // verus!
