//! Sequential record identifiers such as `SYS-F-0007`: a fixed prefix and a
//! number, the next one being one more than the largest in use.

use vstd::prelude::*;

use crate::text::{
    all_digits, append_chars, chars_of, dec, dec_padded, digit_char, digit_val, digits_value, has_prefix,
    parse_unsigned, parse_unsigned_chars, slice_chars, starts_with, string_of, texts, zero_pad,
};

verus! {

/// The number of an identifier with the given prefix, when the rest reads as
/// a `u32`.
pub open spec fn id_number(id: Seq<char>, prefix: Seq<char>) -> Option<nat> {
    if has_prefix(id, prefix) {
        parse_unsigned(id.skip(prefix.len() as int), u32::MAX as nat)
    } else {
        None
    }
}

/// The largest number among identifiers with the prefix, or 0.
pub open spec fn max_number(ids: Seq<Seq<char>>, prefix: Seq<char>) -> nat
    decreases ids.len(),
{
    if ids.len() == 0 {
        0
    } else {
        let m = max_number(ids.drop_last(), prefix);
        match id_number(ids.last(), prefix) {
            Some(n) => if n > m {
                n
            } else {
                m
            },
            None => m,
        }
    }
}

/// `<prefix><n>`, the number zero-padded to four digits.
pub open spec fn numbered_id(prefix: Seq<char>, n: nat) -> Seq<char> {
    prefix + zero_pad(dec(n), 4)
}

/// The identifier after the largest in use.
pub open spec fn next_id(ids: Seq<Seq<char>>, prefix: Seq<char>) -> Seq<char> {
    numbered_id(prefix, max_number(ids, prefix) + 1)
}

proof fn lemma_digit_char(n: nat)
    requires
        n < 10,
    ensures
        crate::text::is_digit(digit_char(n)),
        digit_val(digit_char(n)) == n,
{
}

proof fn lemma_dec_digits(n: nat)
    ensures
        dec(n).len() > 0,
        all_digits(dec(n)),
        digits_value(dec(n)) == n,
    decreases n,
{
    if n < 10 {
        lemma_digit_char(n);
        let d = dec(n);
        assert(d.drop_last() =~= Seq::<char>::empty());
        assert(digits_value(d.drop_last()) == 0);
        assert(d.last() == digit_char(n));
        assert(digits_value(d) == digits_value(d.drop_last()) * 10 + digit_val(d.last()));
    } else {
        lemma_dec_digits(n / 10);
        lemma_digit_char(n % 10);
        let d = dec(n);
        assert(d.drop_last() == dec(n / 10));
        assert(d.last() == digit_char(n % 10));
        assert(digits_value(d) == digits_value(dec(n / 10)) * 10 + digit_val(digit_char(n % 10)));
        assert(n == (n / 10) * 10 + n % 10) by (nonlinear_arith);
        assert forall|i: int| 0 <= i < d.len() implies crate::text::is_digit(#[trigger] d[i]) by {
            if i < d.len() - 1 {
                assert(d[i] == dec(n / 10)[i]);
            }
        }
    }
}

proof fn lemma_zeros_then_digits(k: nat, s: Seq<char>)
    ensures
        digits_value(Seq::new(k, |i: int| '0') + s) == digits_value(s),
    decreases s.len(), k,
{
    let z = Seq::new(k, |i: int| '0');
    if s.len() == 0 {
        assert(z + s =~= z);
        if k > 0 {
            lemma_zeros_then_digits((k - 1) as nat, s);
            assert(z.drop_last() =~= Seq::new((k - 1) as nat, |i: int| '0'));
            assert(Seq::new((k - 1) as nat, |i: int| '0') + s =~= Seq::new((k - 1) as nat, |i: int| '0'));
        }
    } else {
        lemma_zeros_then_digits(k, s.drop_last());
        assert((z + s).drop_last() =~= z + s.drop_last());
        assert((z + s).last() == s.last());
    }
}

/// A numbered id has a `/` only where its prefix has one.
pub proof fn lemma_numbered_id_has_no_slash(prefix: Seq<char>, n: nat)
    requires
        !prefix.contains('/'),
    ensures
        !numbered_id(prefix, n).contains('/'),
{
    lemma_dec_digits(n);
    let d = zero_pad(dec(n), 4);
    assert forall|i: int| 0 <= i < d.len() implies #[trigger] d[i] != '/' by {
        if dec(n).len() < 4 {
            let k = (4 - dec(n).len()) as int;
            if i >= k {
                assert(d[i] == dec(n)[i - k]);
                assert(crate::text::is_digit(dec(n)[i - k]));
            }
        } else {
            assert(crate::text::is_digit(dec(n)[i]));
        }
    }
    let s = numbered_id(prefix, n);
    if s.contains('/') {
        let k = choose|k: int| 0 <= k < s.len() && s[k] == '/';
        if k < prefix.len() {
            assert(prefix[k] == '/');
        } else {
            assert(d[k - prefix.len()] == '/');
        }
    }
}

proof fn lemma_numbered_id_number(prefix: Seq<char>, n: nat)
    requires
        n <= u32::MAX,
    ensures
        id_number(numbered_id(prefix, n), prefix) == Some(n),
{
    lemma_dec_digits(n);
    let d = dec(n);
    let rest = zero_pad(d, 4);
    if d.len() < 4 {
        let k = (4 - d.len()) as nat;
        lemma_zeros_then_digits(k, d);
        assert forall|i: int| 0 <= i < rest.len() implies crate::text::is_digit(#[trigger] rest[i]) by {
            if i >= k {
                assert(rest[i] == d[i - k]);
            }
        }
    }
    assert(rest.len() > 0 && crate::text::is_digit(rest[0]));
    assert(crate::text::unsigned_digits(rest) == rest);
    let id = numbered_id(prefix, n);
    assert(id.take(prefix.len() as int) =~= prefix);
    assert(id.skip(prefix.len() as int) =~= rest);
}

proof fn lemma_max_number_bounds(ids: Seq<Seq<char>>, prefix: Seq<char>, i: int)
    requires
        0 <= i < ids.len(),
        id_number(ids[i], prefix) is Some,
    ensures
        id_number(ids[i], prefix).unwrap() <= max_number(ids, prefix),
    decreases ids.len(),
{
    if i < ids.len() - 1 {
        lemma_max_number_bounds(ids.drop_last(), prefix, i);
        assert(ids.drop_last()[i] == ids[i]);
    }
}

/// A new identifier is never one already in use: its number is larger than
/// the number of every identifier with the prefix.
pub proof fn lemma_next_id_is_fresh(ids: Seq<Seq<char>>, prefix: Seq<char>)
    requires
        max_number(ids, prefix) < u32::MAX,
    ensures
        !ids.contains(next_id(ids, prefix)),
{
    let n = max_number(ids, prefix) + 1;
    lemma_numbered_id_number(prefix, n);
    if ids.contains(next_id(ids, prefix)) {
        let i = choose|i: int| 0 <= i < ids.len() && ids[i] == next_id(ids, prefix);
        lemma_max_number_bounds(ids, prefix, i);
    }
}

/// The number of `id` after `prefix`, if it has one.
fn number_of(id: &str, prefix: &Vec<char>) -> (r: Option<u32>)
    ensures
        r matches Some(n) ==> id_number(id@, prefix@) == Some(n as nat),
        r is None ==> id_number(id@, prefix@) is None,
{
    let v = chars_of(id);
    if !starts_with(&v, prefix) {
        return None;
    }
    let rest = slice_chars(&v, prefix.len(), v.len());
    assert(rest@ == v@.skip(prefix@.len() as int));
    match parse_unsigned_chars(&rest, 4294967295u64) {
        Some(n) => Some(n as u32),
        None => None,
    }
}

/// The largest number among the identifiers with the prefix, or 0.
pub fn max_id_number(ids: &Vec<String>, prefix: &str) -> (m: u32)
    ensures
        m as nat == max_number(texts(ids@), prefix@),
{
    let p = chars_of(prefix);
    let ghost ts = texts(ids@);
    let mut m: u32 = 0;
    let mut i: usize = 0;
    while i < ids.len()
        invariant
            i <= ids@.len(),
            ts == texts(ids@),
            p@ == prefix@,
            m as nat == max_number(ts.take(i as int), prefix@),
        decreases ids.len() - i,
    {
        assert(ts.take(i + 1).drop_last() == ts.take(i as int));
        assert(ts.take(i + 1).last() == ids@[i as int]@);
        match number_of(ids[i].as_str(), &p) {
            Some(n) => {
                if n > m {
                    m = n;
                }
            },
            None => {},
        }
        i += 1;
    }
    assert(ts.take(ids@.len() as int) == ts);
    m
}

/// The identifier after the largest in use among `ids`.
pub fn next_numbered_id(ids: &Vec<String>, prefix: &str) -> (r: String)
    requires
        max_number(texts(ids@), prefix@) < u32::MAX,
    ensures
        r@ == next_id(texts(ids@), prefix@),
{
    let m = max_id_number(ids, prefix);
    let mut v = chars_of(prefix);
    let d = dec_padded((m + 1) as u64, 4);
    append_chars(&mut v, &d);
    string_of(&v)
}

} // verus!
