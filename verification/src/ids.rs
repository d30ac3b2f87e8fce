//! Identifier generation: rendering ordinals as `cp_<n>` strings, and
//! recognizing such strings when previously persisted records are loaded.
//!
//! The manager hands out identifiers of the shape [`spec_id`].  Rendering is
//! injective, and [`parse_generated_id`] decides exactly whether a string has
//! that shape; together these let the manager keep every identifier it
//! generates distinct from everything already in its collections.

use vstd::arithmetic::div_mod::lemma_fundamental_div_mod;
use vstd::arithmetic::div_mod::lemma_fundamental_div_mod_converse;
use vstd::prelude::*;
use vstd::string::*;

verus! {

/// Numeric value of a decimal digit character; 10 for any other character.
pub open spec fn digit_val(c: char) -> nat {
    if c == '0' {
        0
    } else if c == '1' {
        1
    } else if c == '2' {
        2
    } else if c == '3' {
        3
    } else if c == '4' {
        4
    } else if c == '5' {
        5
    } else if c == '6' {
        6
    } else if c == '7' {
        7
    } else if c == '8' {
        8
    } else if c == '9' {
        9
    } else {
        10
    }
}

pub open spec fn is_digit(c: char) -> bool {
    digit_val(c) < 10
}

/// The decimal digit character for `n < 10` (and '9' beyond, never used).
pub open spec fn digit_char(n: nat) -> char {
    if n == 0 {
        '0'
    } else if n == 1 {
        '1'
    } else if n == 2 {
        '2'
    } else if n == 3 {
        '3'
    } else if n == 4 {
        '4'
    } else if n == 5 {
        '5'
    } else if n == 6 {
        '6'
    } else if n == 7 {
        '7'
    } else if n == 8 {
        '8'
    } else {
        '9'
    }
}

/// Decimal rendering of `n`: most significant digit first, no leading zeros.
pub open spec fn spec_dec(n: nat) -> Seq<char>
    decreases n,
{
    if n < 10 {
        seq![digit_char(n)]
    } else {
        spec_dec(n / 10).push(digit_char(n % 10))
    }
}

/// The value of a digit string read as a decimal numeral.
pub open spec fn dec_val(s: Seq<char>) -> nat
    decreases s.len(),
{
    if s.len() == 0 {
        0
    } else {
        dec_val(s.drop_last()) * 10 + digit_val(s.last())
    }
}

pub open spec fn all_digits(s: Seq<char>) -> bool {
    forall|i: int| 0 <= i < s.len() ==> is_digit(#[trigger] s[i])
}

/// A canonical numeral: nonempty, digits only, no leading zero.
pub open spec fn canonical_dec(s: Seq<char>) -> bool {
    &&& s.len() > 0
    &&& all_digits(s)
    &&& (s.len() > 1 ==> s[0] != '0')
}

/// The shape of every identifier this crate generates.
pub open spec fn spec_id(n: nat) -> Seq<char> {
    seq!['c', 'p', '_'] + spec_dec(n)
}

/// `id` differs from every identifier the counter can still mint: nothing in
/// the range `[c, u64::MAX]` renders to it.
pub open spec fn fenced_above(id: Seq<char>, c: nat) -> bool {
    forall|k: nat| c <= k && k <= u64::MAX ==> id != #[trigger] spec_id(k)
}

/// The decimal rendering is a canonical numeral and reads back to its value.
pub(crate) proof fn lemma_dec_shape(n: nat)
    ensures
        spec_dec(n).len() >= 1,
        canonical_dec(spec_dec(n)),
        dec_val(spec_dec(n)) == n,
        n < 10 <==> spec_dec(n).len() == 1,
    decreases n,
{
    if n < 10 {
        let s = seq![digit_char(n)];
        assert(s.drop_last() =~= Seq::<char>::empty());
        assert(s.last() == digit_char(n));
        assert(dec_val(s) == dec_val(s.drop_last()) * 10 + digit_val(s.last()));
        assert(dec_val(Seq::<char>::empty()) == 0);
        assert(dec_val(s) == digit_val(digit_char(n)));
    } else {
        lemma_dec_shape(n / 10);
        let p = spec_dec(n / 10);
        let s = p.push(digit_char(n % 10));
        assert(s.drop_last() =~= p);
        assert(s.last() == digit_char(n % 10));
        lemma_fundamental_div_mod(n as int, 10);
        assert(dec_val(s) == (n / 10) * 10 + (n % 10));
        // no leading zero: the first character comes from the rendering of n / 10
        assert(n / 10 >= 1) by {
            lemma_fundamental_div_mod(n as int, 10);
        }
        assert(s[0] == p[0]);
        if p.len() == 1 {
            assert(n / 10 < 10);
            assert(p[0] == digit_char(n / 10));
        }
    }
}

/// Two distinct ordinals never render to the same numeral.
proof fn lemma_dec_injective(a: nat, b: nat)
    ensures
        spec_dec(a) == spec_dec(b) ==> a == b,
{
    if spec_dec(a) == spec_dec(b) {
        lemma_dec_shape(a);
        lemma_dec_shape(b);
        assert(a == dec_val(spec_dec(a)));
    }
}

/// Two distinct ordinals never render to the same identifier.
pub proof fn lemma_id_injective(a: nat, b: nat)
    ensures
        spec_id(a) == spec_id(b) ==> a == b,
{
    if spec_id(a) == spec_id(b) {
        lemma_dec_shape(a);
        lemma_dec_shape(b);
        assert(spec_id(a).len() == 3 + spec_dec(a).len());
        assert(spec_dec(a) =~= spec_dec(b)) by {
            assert(forall|i: int|
                0 <= i < spec_dec(a).len() ==> #[trigger] spec_dec(a)[i] == spec_id(a)[i + 3]);
            assert(forall|i: int|
                0 <= i < spec_dec(b).len() ==> #[trigger] spec_dec(b)[i] == spec_id(b)[i + 3]);
        }
        lemma_dec_injective(a, b);
    }
}

/// A canonical numeral with a nonzero leading digit has a positive value.
proof fn lemma_nonzero_lead(s: Seq<char>)
    requires
        all_digits(s),
        s.len() >= 1,
        s[0] != '0',
    ensures
        dec_val(s) >= 1,
    decreases s.len(),
{
    if s.len() == 1 {
        assert(s.drop_last() =~= Seq::<char>::empty());
        assert(s.last() == s[0]);
        assert(dec_val(s) == dec_val(s.drop_last()) * 10 + digit_val(s.last()));
        assert(dec_val(Seq::<char>::empty()) == 0);
        assert(dec_val(s) == digit_val(s[0]));
    } else {
        assert(s.drop_last()[0] == s[0]);
        lemma_nonzero_lead(s.drop_last());
    }
}

/// Reading a canonical numeral and rendering the value again gives the same
/// numeral back.
proof fn lemma_canonical_round_trip(s: Seq<char>)
    requires
        canonical_dec(s),
    ensures
        spec_dec(dec_val(s)) == s,
    decreases s.len(),
{
    if s.len() == 1 {
        assert(s.drop_last() =~= Seq::<char>::empty());
        assert(s.last() == s[0]);
        assert(dec_val(s) == dec_val(s.drop_last()) * 10 + digit_val(s.last()));
        assert(dec_val(Seq::<char>::empty()) == 0);
        assert(dec_val(s) == digit_val(s[0]));
        assert(spec_dec(dec_val(s)) =~= s);
    } else {
        let t = s.drop_last();
        let d = digit_val(s.last());
        assert(forall|i: int| 0 <= i < t.len() ==> #[trigger] t[i] == s[i]);
        assert(canonical_dec(t));
        lemma_nonzero_lead(t);
        assert(dec_val(s) == dec_val(t) * 10 + d);
        assert(dec_val(s) >= 10);
        lemma_fundamental_div_mod_converse(dec_val(s) as int, 10, dec_val(t) as int, d as int);
        assert(dec_val(s) / 10 == dec_val(t));
        assert(dec_val(s) % 10 == d);
        lemma_canonical_round_trip(t);
        assert(digit_char(digit_val(s.last())) == s.last());
        assert(spec_dec(dec_val(s)) =~= s);
    }
}

/// Dropping the last digit never increases the value.
proof fn lemma_dec_val_drop_last_le(s: Seq<char>)
    requires
        s.len() >= 1,
    ensures
        dec_val(s.drop_last()) <= dec_val(s),
{
}

/// A prefix of a numeral never has a larger value than the whole.
proof fn lemma_dec_val_prefix_le(s: Seq<char>, i: int)
    requires
        0 <= i <= s.len(),
    ensures
        dec_val(s.subrange(0, i)) <= dec_val(s),
    decreases s.len() - i,
{
    if i == s.len() {
        assert(s.subrange(0, i) =~= s);
    } else {
        assert(s.subrange(0, i) =~= s.subrange(0, i + 1).drop_last());
        lemma_dec_val_drop_last_le(s.subrange(0, i + 1));
        lemma_dec_val_prefix_le(s, i + 1);
    }
}

/// One-character string slice for a decimal digit.
fn digit_str(d: u64) -> (r: &'static str)
    requires
        d < 10,
    ensures
        r@ =~= seq![digit_char(d as nat)],
{
    proof {
        reveal_strlit("0");
        reveal_strlit("1");
        reveal_strlit("2");
        reveal_strlit("3");
        reveal_strlit("4");
        reveal_strlit("5");
        reveal_strlit("6");
        reveal_strlit("7");
        reveal_strlit("8");
        reveal_strlit("9");
    }
    if d == 0 {
        "0"
    } else if d == 1 {
        "1"
    } else if d == 2 {
        "2"
    } else if d == 3 {
        "3"
    } else if d == 4 {
        "4"
    } else if d == 5 {
        "5"
    } else if d == 6 {
        "6"
    } else if d == 7 {
        "7"
    } else if d == 8 {
        "8"
    } else {
        "9"
    }
}

/// Decimal rendering of `n`.
pub fn dec_string(n: u64) -> (r: String)
    ensures
        r@ == spec_dec(n as nat),
    decreases n,
{
    if n < 10 {
        let r = String::from_str(digit_str(n));
        proof {
            assert(r@ =~= spec_dec(n as nat));
        }
        r
    } else {
        let mut s = dec_string(n / 10);
        s.append(digit_str(n % 10));
        proof {
            assert(s@ =~= spec_dec(n as nat));
        }
        s
    }
}

/// `prefix` followed by the decimal rendering of `n`, as in `"Session 3"`.
pub fn numbered_name(prefix: &str, n: u64) -> (r: String)
    ensures
        r@ == prefix@ + spec_dec(n as nat),
{
    let mut s = String::from_str(prefix);
    let digits = dec_string(n);
    s.append(digits.as_str());
    s
}

/// Renders the identifier for ordinal `n`.
pub fn make_id(n: u64) -> (r: String)
    ensures
        r@ == spec_id(n as nat),
{
    proof {
        reveal_strlit("cp_");
    }
    let mut s = String::from_str("cp_");
    let digits = dec_string(n);
    s.append(digits.as_str());
    proof {
        assert(s@ =~= spec_id(n as nat));
    }
    s
}

/// Numeric value of a decimal digit character; 10 for any other character.
pub(crate) fn char_digit(c: char) -> (d: u64)
    ensures
        d as nat == digit_val(c),
{
    if c == '0' {
        0
    } else if c == '1' {
        1
    } else if c == '2' {
        2
    } else if c == '3' {
        3
    } else if c == '4' {
        4
    } else if c == '5' {
        5
    } else if c == '6' {
        6
    } else if c == '7' {
        7
    } else if c == '8' {
        8
    } else if c == '9' {
        9
    } else {
        10
    }
}

/// Decides whether `s` is a generated identifier: returns `Some(n)` exactly
/// when `s` is `spec_id(n)` for an `n` that fits in a `u64`.
pub fn parse_generated_id(s: &str) -> (r: Option<u64>)
    ensures
        match r {
            Some(v) => s@ == spec_id(v as nat),
            None => forall|k: nat| k <= u64::MAX ==> s@ != #[trigger] spec_id(k),
        },
{
    let len = s.unicode_len();
    if len < 4 {
        proof {
            assert forall|k: nat| k <= u64::MAX implies s@ != spec_id(k) by {
                lemma_dec_shape(k);
            }
        }
        return None;
    }
    if s.get_char(0) != 'c' || s.get_char(1) != 'p' || s.get_char(2) != '_' {
        proof {
            assert forall|k: nat| k <= u64::MAX implies s@ != spec_id(k) by {
                assert(spec_id(k)[0] == 'c');
                assert(spec_id(k)[1] == 'p');
                assert(spec_id(k)[2] == '_');
            }
        }
        return None;
    }
    if len > 4 && s.get_char(3) == '0' {
        proof {
            assert forall|k: nat| k <= u64::MAX implies s@ != spec_id(k) by {
                lemma_dec_shape(k);
                if s@ == spec_id(k) {
                    assert(spec_dec(k).len() == s@.len() - 3);
                    assert(spec_dec(k)[0] == s@[3]);
                }
            }
        }
        return None;
    }
    let ghost body = s@.subrange(3, len as int);
    let mut i: usize = 3;
    let mut acc: u64 = 0;
    while i < len
        invariant
            3 <= i <= len,
            len == s@.len(),
            4 <= len,
            body == s@.subrange(3, len as int),
            acc as nat == dec_val(s@.subrange(3, i as int)),
            all_digits(s@.subrange(3, i as int)),
        decreases len - i,
    {
        let c = s.get_char(i);
        let d = char_digit(c);
        if d >= 10 {
            proof {
                assert forall|k: nat| k <= u64::MAX implies s@ != spec_id(k) by {
                    lemma_dec_shape(k);
                    if s@ == spec_id(k) {
                        assert(spec_dec(k)[i - 3] == s@[i as int]);
                    }
                }
            }
            return None;
        }
        let limit = (u64::MAX - d) / 10;
        if acc > limit {
            proof {
                let pre = s@.subrange(3, i as int);
                let ext = s@.subrange(3, i as int + 1);
                assert(ext.drop_last() =~= pre);
                assert(ext.last() == s@[i as int]);
                assert(dec_val(ext) == dec_val(pre) * 10 + d);
                lemma_fundamental_div_mod(u64::MAX - d, 10);
                assert(dec_val(ext) > u64::MAX);
                assert forall|k: nat| k <= u64::MAX implies s@ != spec_id(k) by {
                    lemma_dec_shape(k);
                    if s@ == spec_id(k) {
                        assert(spec_dec(k) =~= body);
                        assert(ext =~= body.subrange(0, i as int + 1 - 3));
                        lemma_dec_val_prefix_le(body, i as int + 1 - 3);
                        assert(k >= dec_val(ext));
                    }
                }
            }
            return None;
        }
        proof {
            let pre = s@.subrange(3, i as int);
            let ext = s@.subrange(3, i as int + 1);
            assert(ext.drop_last() =~= pre);
            assert(ext.last() == s@[i as int]);
            lemma_fundamental_div_mod(u64::MAX - d, 10);
            assert(forall|j: int| 0 <= j < ext.len() ==> is_digit(#[trigger] ext[j]));
        }
        acc = acc * 10 + d;
        i = i + 1;
    }
    proof {
        assert(s@.subrange(3, i as int) =~= body);
        assert(canonical_dec(body));
        lemma_canonical_round_trip(body);
        assert(s@ =~= seq!['c', 'p', '_'] + body);
        assert(s@ == spec_id(acc as nat));
    }
    Some(acc)
}

} // verus!
