use vstd::prelude::*;
use vstd::string::*;
use crate::text::push_char;

verus! {

/// The word separators that camel-casing removes.
pub open spec fn is_separator(c: char) -> bool {
    c == '_' || c == ' ' || c == '-'
}

/// ASCII upper-casing of one character; every other character passes through.
pub open spec fn upper_char(c: char) -> char {
    if 'a' <= c && c <= 'z' {
        (((c as u32) - 32) as u8) as char
    } else {
        c
    }
}

/// What `char::to_uppercase` yields for one character: its full Unicode
/// uppercase mapping, one or more characters.
pub uninterp spec fn upper_of(c: char) -> Seq<char>;

/// Relies on `char::to_uppercase`: yields the Unicode uppercase mapping of
/// the character (a character without an uppercase mapping yields itself),
/// which for an ASCII character is its ASCII upper-casing.
#[verifier::external_body]
fn uppercase_of_char(c: char) -> (r: Vec<char>)
    ensures
        r@ == upper_of(c),
        (c as u32) < 128 ==> r@ == seq![upper_char(c)],
{
    c.to_uppercase().collect()
}

/// Camel-casing of the tail of a name: separators are dropped, and the
/// character right after a separator (or at the very start, when `prev_sep`
/// holds) is replaced by its uppercase mapping.
pub open spec fn camel_rec(s: Seq<char>, prev_sep: bool) -> Seq<char>
    decreases s.len(),
{
    if s.len() == 0 {
        Seq::empty()
    } else if is_separator(s[0]) {
        camel_rec(s.skip(1), true)
    } else if prev_sep {
        upper_of(s[0]) + camel_rec(s.skip(1), false)
    } else {
        seq![s[0]] + camel_rec(s.skip(1), false)
    }
}

/// Camel-casing of a whole name: the start of the string behaves as if it
/// followed a separator, so the first emitted character is upper-cased.
pub open spec fn camel_of(s: Seq<char>) -> Seq<char> {
    camel_rec(s, true)
}

/// Converts a snake/kebab/space-separated name to camel case.
pub fn to_camel_case(s: &String) -> (r: String)
    ensures
        r@ == camel_of(s@),
{
    let sl = s.as_str();
    let n = sl.unicode_len();
    let mut out = String::new();
    let mut prev_sep = true;
    let mut i: usize = 0;
    proof {
        assert(s@.skip(0) =~= s@);
    }
    while i < n
        invariant
            i <= n,
            n == s@.len(),
            sl@ == s@,
            camel_of(s@) == out@ + camel_rec(s@.skip(i as int), prev_sep),
        decreases n - i,
    {
        let c = sl.get_char(i);
        proof {
            assert(s@.skip(i as int)[0] == s@[i as int]);
            assert(s@.skip(i as int).skip(1) =~= s@.skip(i as int + 1));
        }
        if c == '_' || c == ' ' || c == '-' {
            prev_sep = true;
        } else if prev_sep {
            let ups = uppercase_of_char(c);
            let ghost pre_out = out@;
            let mut j: usize = 0;
            proof {
                assert(pre_out + ups@.take(0) =~= pre_out);
            }
            while j < ups.len()
                invariant
                    j <= ups@.len(),
                    ups@ == upper_of(s@[i as int]),
                    out@ == pre_out + ups@.take(j as int),
                decreases ups@.len() - j,
            {
                push_char(&mut out, ups[j]);
                proof {
                    assert((pre_out + ups@.take(j as int)).push(ups@[j as int]) =~= pre_out
                        + ups@.take(j as int + 1));
                }
                j = j + 1;
            }
            prev_sep = false;
            proof {
                assert(ups@.take(ups@.len() as int) =~= ups@);
                assert(pre_out + (upper_of(s@[i as int]) + camel_rec(s@.skip(i as int + 1), false))
                    =~= (pre_out + upper_of(s@[i as int])) + camel_rec(
                    s@.skip(i as int + 1),
                    false,
                ));
            }
        } else {
            let ghost pre_out = out@;
            push_char(&mut out, c);
            proof {
                assert(pre_out + (seq![s@[i as int]] + camel_rec(s@.skip(i as int + 1), false))
                    =~= pre_out.push(s@[i as int]) + camel_rec(s@.skip(i as int + 1), false));
            }
        }
        i = i + 1;
    }
    proof {
        assert(s@.skip(n as int) =~= Seq::<char>::empty());
        assert(out@ + Seq::<char>::empty() =~= out@);
    }
    out
}

/// Helper: on separator-free input, camel-casing in non-start state is the
/// identity.
proof fn lemma_camel_rec_no_sep(s: Seq<char>)
    requires
        forall|i: int| 0 <= i < s.len() ==> !is_separator(#[trigger] s[i]),
    ensures
        camel_rec(s, false) == s,
    decreases s.len(),
{
    if s.len() == 0 {
        assert(camel_rec(s, false) =~= s);
    } else {
        lemma_camel_rec_no_sep(s.skip(1));
        assert(seq![s[0]] + s.skip(1) =~= s);
    }
}

/// Camel-casing is idempotent on input that is already camel-cased and holds
/// no separators: no character is a separator, and the first character's
/// uppercase mapping is itself.
pub proof fn lemma_camel_idempotent(s: Seq<char>)
    requires
        forall|i: int| 0 <= i < s.len() ==> !is_separator(#[trigger] s[i]),
        s.len() > 0 ==> upper_of(s[0]) == seq![s[0]],
    ensures
        camel_of(s) == s,
{
    if s.len() == 0 {
        assert(camel_of(s) =~= s);
    } else {
        lemma_camel_rec_no_sep(s.skip(1));
        assert(camel_of(s) =~= upper_of(s[0]) + s.skip(1));
        assert(seq![s[0]] + s.skip(1) =~= s);
    }
}

} // verus!
