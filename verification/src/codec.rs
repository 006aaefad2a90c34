//! The cross-boundary payload schema and its verified codec.
//!
//! Payloads that cross the host boundary (the sale-parameters message a
//! seller attaches to an approval, and the payout table a registry returns
//! from a transfer-and-payout request) are plain text in a small tagged,
//! versioned schema, validated eagerly on receipt and failing closed.
//!
//! Every value has exactly one canonical text.  Each parser is exact: it
//! returns `Some` on precisely the canonical texts, and the parsed value's
//! canonical text is the input.

use vstd::prelude::*;
use vstd::string::StrSliceExecFns;
use vstd::string::StringExecFns;

verus! {

// ---------------------------------------------------------------------------
// Decimal numbers
// ---------------------------------------------------------------------------
/// Whether a character is a decimal digit.
pub open spec fn is_digit(c: char) -> bool {
    48 <= c as u32 && c as u32 <= 57
}

/// The numeric value of a digit character.
pub open spec fn digit_val(c: char) -> int {
    c as u32 - 48
}

/// The digit character of a value below ten.
pub open spec fn digit_char(d: int) -> char {
    if d == 0 {
        '0'
    } else if d == 1 {
        '1'
    } else if d == 2 {
        '2'
    } else if d == 3 {
        '3'
    } else if d == 4 {
        '4'
    } else if d == 5 {
        '5'
    } else if d == 6 {
        '6'
    } else if d == 7 {
        '7'
    } else if d == 8 {
        '8'
    } else {
        '9'
    }
}

/// The scalar values of the characters the schema distinguishes.
pub proof fn lemma_char_scalars()
    ensures
        '0' as u32 == 48,
        '1' as u32 == 49,
        '2' as u32 == 50,
        '3' as u32 == 51,
        '4' as u32 == 52,
        '5' as u32 == 53,
        '6' as u32 == 54,
        '7' as u32 == 55,
        '8' as u32 == 56,
        '9' as u32 == 57,
        ';' as u32 == 59,
        '=' as u32 == 61,
{
    assert('0' as u32 == 48 && '1' as u32 == 49 && '2' as u32 == 50 && '3' as u32 == 51 && '4'
        as u32 == 52 && '5' as u32 == 53 && '6' as u32 == 54 && '7' as u32 == 55 && '8' as u32
        == 56 && '9' as u32 == 57 && ';' as u32 == 59 && '=' as u32 == 61);
}

/// A digit character is recovered from its value, and conversely.
pub proof fn lemma_digit_char_val(c: char)
    requires
        is_digit(c),
    ensures
        0 <= digit_val(c) < 10,
        digit_char(digit_val(c)) == c,
{
    lemma_char_scalars();
}

/// Whether every character of a text is a digit.
pub open spec fn all_digits(s: Seq<char>) -> bool {
    forall|i: int| 0 <= i < s.len() ==> is_digit(s[i])
}

/// The number a digit string denotes.
pub open spec fn dec_value(s: Seq<char>) -> int
    decreases s.len(),
{
    if s.len() == 0 {
        0
    } else {
        dec_value(s.drop_last()) * 10 + digit_val(s.last())
    }
}

/// The canonical decimal text of a number: its digits, no leading zero.
pub open spec fn dec_of(n: nat) -> Seq<char>
    decreases n,
{
    if n < 10 {
        seq![digit_char(n as int)]
    } else {
        dec_of(n / 10).push(digit_char((n % 10) as int))
    }
}

/// A one-character digit string denotes its digit's value.
pub proof fn lemma_dec_value_single(s: Seq<char>)
    requires
        s.len() == 1,
    ensures
        dec_value(s) == digit_val(s[0]),
{
    assert(s.drop_last() =~= Seq::<char>::empty());
    assert(dec_value(s.drop_last()) == 0);
    assert(s.last() == s[0]);
}

/// The canonical decimal text denotes its number and has no leading zero.
pub proof fn lemma_dec_of(n: nat)
    ensures
        dec_of(n).len() >= 1,
        all_digits(dec_of(n)),
        dec_of(n).len() > 1 ==> dec_of(n)[0] != '0',
        n >= 1 ==> dec_of(n)[0] != '0',
        dec_value(dec_of(n)) == n,
    decreases n,
{
    lemma_char_scalars();
    if n < 10 {
        assert(dec_of(n) =~= seq![digit_char(n as int)]);
        lemma_dec_value_single(dec_of(n));
        assert(dec_of(n)[0] == digit_char(n as int));
        assert(digit_val(digit_char(n as int)) == n as int);
    } else {
        lemma_dec_of(n / 10);
        let s = dec_of(n / 10);
        assert(dec_of(n) =~= s.push(digit_char((n % 10) as int)));
        assert(dec_of(n).drop_last() =~= s);
        assert(dec_of(n).last() == digit_char((n % 10) as int));
        assert(n / 10 >= 1);
        assert(dec_of(n)[0] == s[0]);
        assert(dec_value(dec_of(n)) == dec_value(s) * 10 + digit_val(
            digit_char((n % 10) as int),
        ));
        assert(digit_val(digit_char((n % 10) as int)) == n % 10);
        assert((n / 10) * 10 + n % 10 == n);
    }
}

/// A nonempty all-digit text without a leading zero is a canonical decimal.
pub proof fn lemma_dec_inversion(s: Seq<char>)
    requires
        s.len() >= 1,
        all_digits(s),
        s.len() > 1 ==> s[0] != '0',
    ensures
        dec_value(s) >= 0,
        s.len() > 1 ==> dec_value(s) >= 10,
        dec_of(dec_value(s) as nat) == s,
    decreases s.len(),
{
    lemma_char_scalars();
    if s.len() == 1 {
        let d = digit_val(s[0]);
        assert(is_digit(s[0]));
        lemma_digit_char_val(s[0]);
        assert(0 <= d < 10);
        lemma_dec_value_single(s);
        assert(dec_value(s) == d);
        assert(digit_char(d) == s[0]);
        assert(dec_of(d as nat) =~= seq![s[0]]);
        assert(seq![s[0]] =~= s);
    } else {
        let t = s.drop_last();
        assert(t.len() >= 1);
        assert(forall|i: int| 0 <= i < t.len() ==> t[i] == s[i]);
        assert(t[0] != '0');
        lemma_dec_inversion(t);
        let vt = dec_value(t);
        // the head is a nonzero digit, so the prefix value is at least one
        if t.len() == 1 {
            lemma_dec_value_single(t);
            assert(vt == digit_val(t[0]));
            if digit_val(t[0]) == 0 {
                assert(is_digit(t[0]));
                lemma_digit_char_val(t[0]);
                assert(t[0] == '0');
            }
        }
        assert(vt >= 1);
        let d = digit_val(s.last());
        assert(is_digit(s.last()));
        lemma_digit_char_val(s.last());
        assert(0 <= d < 10);
        assert(dec_value(s) == vt * 10 + d);
        assert(dec_value(s) >= 10);
        let v = dec_value(s) as nat;
        assert(v / 10 == vt) by {
            assert(v == vt * 10 + d);
        }
        assert(v % 10 == d) by {
            assert(v == vt * 10 + d);
        }
        assert(dec_of(v) == dec_of(vt as nat).push(digit_char(d)));
        assert(dec_of(vt as nat) == t);
        assert(digit_char(d) == s.last());
        assert(t.push(s.last()) =~= s);
    }
}

/// The value of an all-digit text's prefix never exceeds the whole's value.
pub proof fn lemma_dec_prefix_bound(s: Seq<char>, i: int)
    requires
        all_digits(s),
        0 <= i <= s.len(),
    ensures
        0 <= dec_value(s.take(i)),
        dec_value(s.take(i)) <= dec_value(s),
    decreases s.len() - i,
{
    lemma_dec_value_nonneg(s.take(i));
    if i < s.len() {
        lemma_dec_prefix_bound(s, i + 1);
        assert(s.take(i + 1).drop_last() =~= s.take(i));
        assert(s.take(i + 1).last() == s[i]);
        assert(dec_value(s.take(i + 1)) == dec_value(s.take(i)) * 10 + digit_val(s[i]));
        assert(is_digit(s[i]));
        assert(digit_val(s[i]) >= 0);
    } else {
        assert(s.take(i) =~= s);
    }
}

/// A digit string's value is not negative.
pub proof fn lemma_dec_value_nonneg(s: Seq<char>)
    requires
        all_digits(s),
    ensures
        dec_value(s) >= 0,
    decreases s.len(),
{
    if s.len() > 0 {
        assert(forall|i: int| 0 <= i < s.drop_last().len() ==> s.drop_last()[i] == s[i]);
        lemma_dec_value_nonneg(s.drop_last());
        assert(is_digit(s.last()));
    }
}

/// Parse the canonical decimal text of a `u128`.
///
/// Returns `Some(v)` exactly when the input is `dec_of(v)` for some `v`
/// that fits; anything else (empty, a non-digit, a leading zero, a value
/// past the type's range) is rejected.
pub fn parse_dec(t: &str) -> (r: Option<u128>)
    ensures
        match r {
            Some(v) => t@ == dec_of(v as nat),
            None => forall|v: u128| t@ != dec_of(v as nat),
        },
{
    let n = t.unicode_len();
    if n == 0 {
        proof {
            assert forall|v: u128| t@ != dec_of(v as nat) by {
                lemma_dec_of(v as nat);
            }
        }
        return None;
    }
    let c0 = t.get_char(0);
    if n > 1 && c0 == '0' {
        proof {
            assert forall|v: u128| t@ != dec_of(v as nat) by {
                lemma_dec_of(v as nat);
                if t@ == dec_of(v as nat) {
                    assert(dec_of(v as nat)[0] != '0');
                }
            }
        }
        return None;
    }
    let mut val: u128 = 0;
    let mut i: usize = 0;
    while i < n
        invariant
            0 <= i <= n,
            n == t@.len(),
            all_digits(t@.take(i as int)),
            val == dec_value(t@.take(i as int)),
            n > 1 ==> t@[0] != '0',
        decreases n - i,
    {
        let c = t.get_char(i);
        let cu = c as u32;
        if cu < 48 || cu > 57 {
            proof {
                assert(!is_digit(t@[i as int]));
                assert forall|v: u128| t@ != dec_of(v as nat) by {
                    lemma_dec_of(v as nat);
                    if t@ == dec_of(v as nat) {
                        assert(is_digit(t@[i as int]));
                    }
                }
            }
            return None;
        }
        let d = (cu - 48) as u128;
        proof {
            assert(is_digit(t@[i as int]));
            assert(t@.take(i + 1).drop_last() =~= t@.take(i as int));
            assert(t@.take(i + 1).last() == t@[i as int]);
            assert(dec_value(t@.take(i + 1)) == val * 10 + d);
        }
        let big = match val.checked_mul(10) {
            Some(v10) => v10.checked_add(d),
            None => None,
        };
        match big {
            Some(v) => {
                val = v;
            },
            None => {
                proof {
                    assert(dec_value(t@.take(i + 1)) > u128::MAX);
                    assert forall|v: u128| t@ != dec_of(v as nat) by {
                        lemma_dec_of(v as nat);
                        if t@ == dec_of(v as nat) {
                            lemma_dec_prefix_bound(t@, i + 1);
                            assert(dec_value(t@) == v as nat);
                        }
                    }
                }
                return None;
            },
        }
        i += 1;
    }
    proof {
        assert(t@.take(n as int) =~= t@);
        lemma_dec_inversion(t@);
    }
    Some(val)
}

/// The single-character text of a digit.
fn digit_str(d: u128) -> (r: &'static str)
    requires
        d < 10,
    ensures
        r@ == seq![digit_char(d as int)],
{
    proof {
        reveal_strlit("0");
        reveal_strlit("1");
        reveal_strlit("2");
        reveal_strlit("3");
        reveal_strlit("4");
        reveal_strlit("5");
        reveal_strlit("6");
        reveal_strlit("7");
        reveal_strlit("8");
        reveal_strlit("9");
    }
    if d == 0 {
        proof {
            assert("0"@ =~= seq![digit_char(0)]);
        }
        "0"
    } else if d == 1 {
        proof {
            assert("1"@ =~= seq![digit_char(1)]);
        }
        "1"
    } else if d == 2 {
        proof {
            assert("2"@ =~= seq![digit_char(2)]);
        }
        "2"
    } else if d == 3 {
        proof {
            assert("3"@ =~= seq![digit_char(3)]);
        }
        "3"
    } else if d == 4 {
        proof {
            assert("4"@ =~= seq![digit_char(4)]);
        }
        "4"
    } else if d == 5 {
        proof {
            assert("5"@ =~= seq![digit_char(5)]);
        }
        "5"
    } else if d == 6 {
        proof {
            assert("6"@ =~= seq![digit_char(6)]);
        }
        "6"
    } else if d == 7 {
        proof {
            assert("7"@ =~= seq![digit_char(7)]);
        }
        "7"
    } else if d == 8 {
        proof {
            assert("8"@ =~= seq![digit_char(8)]);
        }
        "8"
    } else {
        proof {
            assert("9"@ =~= seq![digit_char(9)]);
        }
        "9"
    }
}

/// Write a number as its canonical decimal text.
pub fn dec_string(v: u128) -> (r: String)
    ensures
        r@ == dec_of(v as nat),
    decreases v,
{
    if v < 10 {
        let r = String::from_str(digit_str(v));
        r
    } else {
        let mut r = dec_string(v / 10);
        r.append(digit_str(v % 10));
        proof {
            assert(r@ =~= dec_of((v / 10) as nat).push(digit_char((v % 10) as int)));
        }
        r
    }
}

// ---------------------------------------------------------------------------
// Sale-parameters payload
// ---------------------------------------------------------------------------
/// The tag that opens a sale-parameters payload.
pub open spec fn sale_prefix() -> Seq<char> {
    "sale-v1:"@
}

/// The canonical text of a sale-parameters payload carrying a price.
pub open spec fn sale_args_text(price: u128) -> Seq<char> {
    sale_prefix() + dec_of(price as nat)
}

/// Parse a sale-parameters payload.
///
/// Returns `Some(price)` exactly when the input is `sale_args_text(price)`.
pub fn parse_sale_args(t: &str) -> (r: Option<u128>)
    ensures
        match r {
            Some(price) => t@ == sale_args_text(price),
            None => forall|price: u128| t@ != sale_args_text(price),
        },
{
    proof {
        reveal_strlit("sale-v1:");
    }
    let pat: &str = "sale-v1:";
    let n = t.unicode_len();
    if n < 8 {
        proof {
            assert forall|price: u128| t@ != sale_args_text(price) by {
                lemma_dec_of(price as nat);
            }
        }
        return None;
    }
    let mut j: usize = 0;
    while j < 8
        invariant
            0 <= j <= 8,
            8 <= n == t@.len(),
            pat@ == sale_prefix(),
            pat@.len() == 8,
            forall|i: int| 0 <= i < j ==> t@[i] == sale_prefix()[i],
        decreases 8 - j,
    {
        if t.get_char(j) != pat.get_char(j) {
            proof {
                assert forall|price: u128| t@ != sale_args_text(price) by {
                    if t@ == sale_args_text(price) {
                        assert(t@[j as int] == sale_prefix()[j as int]);
                    }
                }
            }
            return None;
        }
        j += 1;
    }
    let rest = t.substring_char(8, n);
    let r = parse_dec(rest);
    proof {
        assert(rest@ =~= t@.skip(8));
    }
    match r {
        Some(price) => {
            proof {
                assert(t@ =~= sale_prefix() + t@.skip(8));
            }
            Some(price)
        },
        None => {
            proof {
                assert forall|price: u128| t@ != sale_args_text(price) by {
                    if t@ == sale_args_text(price) {
                        assert(t@.skip(8) =~= dec_of(price as nat));
                    }
                }
            }
            None
        },
    }
}

/// A sale-parameters payload's text determines its price.
pub proof fn lemma_sale_args_text_injective(p1: u128, p2: u128)
    requires
        sale_args_text(p1) == sale_args_text(p2),
    ensures
        p1 == p2,
{
    assert(dec_of(p1 as nat) =~= sale_args_text(p1).skip(8)) by {
        reveal_strlit("sale-v1:");
    }
    assert(dec_of(p2 as nat) =~= sale_args_text(p2).skip(8)) by {
        reveal_strlit("sale-v1:");
    }
    lemma_dec_of(p1 as nat);
    lemma_dec_of(p2 as nat);
    assert(dec_value(dec_of(p1 as nat)) == dec_value(dec_of(p2 as nat)));
}

/// Write a price as a sale-parameters payload.
pub fn sale_args_string(price: u128) -> (r: String)
    ensures
        r@ == sale_args_text(price),
{
    proof {
        reveal_strlit("sale-v1:");
    }
    let mut s = String::from_str("sale-v1:");
    let d = dec_string(price);
    s.append(d.as_str());
    s
}

// ---------------------------------------------------------------------------
// Boolean payload
// ---------------------------------------------------------------------------
/// The canonical text of a boolean response.
pub open spec fn bool_text(b: bool) -> Seq<char> {
    if b {
        "true"@
    } else {
        "false"@
    }
}

/// Parse a boolean response; `Some` exactly on the two canonical texts.
pub fn parse_bool(t: &str) -> (r: Option<bool>)
    ensures
        match r {
            Some(b) => t@ == bool_text(b),
            None => forall|b: bool| t@ != bool_text(b),
        },
{
    proof {
        reveal_strlit("true");
        reveal_strlit("false");
    }
    let n = t.unicode_len();
    if n == 4 && t.get_char(0) == 't' && t.get_char(1) == 'r' && t.get_char(2) == 'u'
        && t.get_char(3) == 'e' {
        proof {
            assert(t@ =~= "true"@);
        }
        Some(true)
    } else if n == 5 && t.get_char(0) == 'f' && t.get_char(1) == 'a' && t.get_char(2) == 'l'
        && t.get_char(3) == 's' && t.get_char(4) == 'e' {
        proof {
            assert(t@ =~= "false"@);
        }
        Some(false)
    } else {
        proof {
            assert forall|b: bool| t@ != bool_text(b) by {
                if t@ == bool_text(b) {
                    if b {
                        assert(t@.len() == 4);
                        assert(t@[0] == 't' && t@[1] == 'r' && t@[2] == 'u' && t@[3] == 'e');
                    } else {
                        assert(t@.len() == 5);
                        assert(t@[0] == 'f' && t@[1] == 'a' && t@[2] == 'l' && t@[3] == 's'
                            && t@[4] == 'e');
                    }
                }
            }
        }
        None
    }
}

// ---------------------------------------------------------------------------
// Payout payload
// ---------------------------------------------------------------------------
/// The tag that opens a payout payload.
pub open spec fn payout_prefix() -> Seq<char> {
    "payout-v1:"@
}

/// An account name the payout schema can carry: nonempty, and free of the
/// schema's two separator characters.
pub open spec fn valid_account(a: Seq<char>) -> bool {
    a.len() >= 1 && forall|i: int| 0 <= i < a.len() ==> a[i] != '=' && a[i] != ';'
}

/// The canonical text of one payout entry.
pub open spec fn entry_text(a: Seq<char>, v: u128) -> Seq<char> {
    a + seq!['='] + dec_of(v as nat)
}

/// The canonical text of a payout entry list, entries separated by `;`.
pub open spec fn entries_text(es: Seq<(Seq<char>, u128)>) -> Seq<char>
    decreases es.len(),
{
    if es.len() == 0 {
        Seq::empty()
    } else if es.len() == 1 {
        entry_text(es[0].0, es[0].1)
    } else {
        entry_text(es[0].0, es[0].1) + seq![';'] + entries_text(es.drop_first())
    }
}

/// Whether every entry of a list names a schema-valid account.
pub open spec fn valid_accounts(es: Seq<(Seq<char>, u128)>) -> bool {
    forall|i: int| 0 <= i < es.len() ==> valid_account(es[i].0)
}

/// The canonical text of a whole payout payload.
pub open spec fn payout_text(es: Seq<(Seq<char>, u128)>) -> Seq<char> {
    payout_prefix() + entries_text(es)
}

/// The mathematical entries of an executable entry list.
pub open spec fn entries_view(v: Seq<(String, u128)>) -> Seq<(Seq<char>, u128)> {
    Seq::new(v.len(), |i: int| (v[i].0@, v[i].1))
}

/// A text splits into the parts before and after any one position.
pub proof fn lemma_split_at(s: Seq<char>, k: int)
    requires
        0 <= k < s.len(),
    ensures
        s =~= s.take(k) + seq![s[k]] + s.skip(k + 1),
{
    let rhs = s.take(k) + seq![s[k]] + s.skip(k + 1);
    assert forall|j: int| 0 <= j < s.len() implies rhs[j] == s[j] by {
        if j < k {
            assert(rhs[j] == s.take(k)[j]);
        } else if j == k {
        } else {
            assert(rhs[j] == s.skip(k + 1)[j - k - 1]);
        }
    }
}

/// Where each character class sits inside one entry's text.
pub proof fn lemma_entry_text_chars(a: Seq<char>, v: u128)
    requires
        valid_account(a),
    ensures
        entry_text(a, v).len() == a.len() + 1 + dec_of(v as nat).len(),
        entry_text(a, v).len() >= 2,
        forall|j: int| 0 <= j < entry_text(a, v).len() ==> entry_text(a, v)[j] != ';',
        forall|j: int| 0 <= j < a.len() ==> entry_text(a, v)[j] != '=',
        entry_text(a, v)[a.len() as int] == '=',
        forall|j: int|
            a.len() + 1 <= j < entry_text(a, v).len() ==> is_digit(entry_text(a, v)[j]),
{
    lemma_char_scalars();
    lemma_dec_of(v as nat);
    let e = entry_text(a, v);
    assert forall|j: int| 0 <= j < e.len() implies e[j] != ';' by {
        if j < a.len() {
            assert(e[j] == a[j]);
        } else if j == a.len() {
            assert(e[j] == '=');
        } else {
            assert(e[j] == dec_of(v as nat)[j - a.len() - 1]);
            assert(is_digit(e[j]));
        }
    }
    assert forall|j: int| a.len() + 1 <= j < e.len() implies is_digit(e[j]) by {
        assert(e[j] == dec_of(v as nat)[j - a.len() - 1]);
    }
}

/// A digit is neither separator.
pub proof fn lemma_digit_not_separator(c: char)
    requires
        is_digit(c),
    ensures
        c != '=',
        c != ';',
{
    lemma_char_scalars();
}

/// One entry's text determines its account and amount.
pub proof fn lemma_entry_text_injective(a1: Seq<char>, v1: u128, a2: Seq<char>, v2: u128)
    requires
        valid_account(a1),
        valid_account(a2),
        entry_text(a1, v1) == entry_text(a2, v2),
    ensures
        a1 == a2,
        v1 == v2,
{
    lemma_entry_text_chars(a1, v1);
    lemma_entry_text_chars(a2, v2);
    let e = entry_text(a1, v1);
    if a1.len() < a2.len() {
        assert(e[a1.len() as int] == '=');
        assert(entry_text(a2, v2)[a1.len() as int] != '=');
        assert(false);
    }
    if a2.len() < a1.len() {
        assert(e[a2.len() as int] != '=');
        assert(entry_text(a2, v2)[a2.len() as int] == '=');
        assert(false);
    }
    assert forall|j: int| 0 <= j < a1.len() implies a1[j] == a2[j] by {
        assert(a1[j] == e[j]);
        assert(a2[j] == entry_text(a2, v2)[j]);
    }
    assert(a1 =~= a2);
    lemma_dec_of(v1 as nat);
    lemma_dec_of(v2 as nat);
    assert(dec_of(v1 as nat) =~= e.skip(a1.len() + 1 as int));
    assert(dec_of(v2 as nat) =~= e.skip(a1.len() + 1 as int));
    assert(dec_value(dec_of(v1 as nat)) == dec_value(dec_of(v2 as nat)));
}

/// How an entry list's text decomposes around its first separator.
pub proof fn lemma_entries_text_structure(es: Seq<(Seq<char>, u128)>)
    requires
        es.len() >= 1,
        valid_accounts(es),
    ensures
        entries_text(es).len() >= 2,
        es.len() == 1 ==> forall|j: int|
            0 <= j < entries_text(es).len() ==> entries_text(es)[j] != ';',
        es.len() >= 2 ==> {
            &&& entries_text(es).len() == entry_text(es[0].0, es[0].1).len() + 1 + entries_text(
                es.drop_first(),
            ).len()
            &&& forall|j: int|
                0 <= j < entry_text(es[0].0, es[0].1).len() ==> entries_text(es)[j] != ';'
            &&& entries_text(es)[entry_text(es[0].0, es[0].1).len() as int] == ';'
            &&& entries_text(es).take(entry_text(es[0].0, es[0].1).len() as int) == entry_text(
                es[0].0,
                es[0].1,
            )
            &&& entries_text(es).skip(entry_text(es[0].0, es[0].1).len() + 1 as int) == entries_text(
                es.drop_first(),
            )
        },
    decreases es.len(),
{
    assert(valid_account(es[0].0));
    lemma_entry_text_chars(es[0].0, es[0].1);
    if es.len() >= 2 {
        let e0 = entry_text(es[0].0, es[0].1);
        let k = e0.len() as int;
        let rest = es.drop_first();
        assert(valid_accounts(rest)) by {
            assert(forall|i: int| 0 <= i < rest.len() ==> rest[i] == es[i + 1]);
        }
        lemma_entries_text_structure(rest);
        let t = entries_text(es);
        assert(t =~= e0 + seq![';'] + entries_text(rest));
        assert forall|j: int| 0 <= j < k implies t[j] != ';' by {
            assert(t[j] == e0[j]);
        }
        assert(t[k] == ';');
        assert(t.take(k) =~= e0);
        assert(t.skip(k + 1) =~= entries_text(rest));
    }
}

/// Parse one payout entry: an account, `=`, and a canonical amount.
fn parse_entry(t: &str) -> (r: Option<(String, u128)>)
    requires
        forall|i: int| 0 <= i < t@.len() ==> t@[i] != ';',
    ensures
        match r {
            Some(e) => valid_account(e.0@) && t@ == entry_text(e.0@, e.1),
            None => forall|a: Seq<char>, v: u128|
                valid_account(a) ==> t@ != entry_text(a, v),
        },
{
    let n = t.unicode_len();
    let mut k: usize = 0;
    while k < n
        invariant
            0 <= k <= n,
            n == t@.len(),
            forall|i: int| 0 <= i < k ==> t@[i] != '=',
            forall|i: int| 0 <= i < t@.len() ==> t@[i] != ';',
        decreases n - k,
    {
        if t.get_char(k) == '=' {
            if k == 0 {
                proof {
                    assert forall|a: Seq<char>, v: u128|
                        valid_account(a) implies t@ != entry_text(a, v) by {
                        lemma_entry_text_chars(a, v);
                        if t@ == entry_text(a, v) {
                            assert(t@[0] == a[0]);
                        }
                    }
                }
                return None;
            }
            let acct = t.substring_char(0, k);
            let digits = t.substring_char(k + 1, n);
            proof {
                assert(acct@ =~= t@.take(k as int));
                assert(digits@ =~= t@.skip(k + 1));
            }
            match parse_dec(digits) {
                Some(v) => {
                    let account = String::from_str(acct);
                    proof {
                        assert(account@ =~= t@.take(k as int));
                        assert forall|ii: int| 0 <= ii < account@.len() implies account@[ii]
                            != '=' && account@[ii] != ';' by {
                            assert(account@.len() == k as int);
                            assert(account@[ii] == t@.take(k as int)[ii]);
                            assert(t@.take(k as int)[ii] == t@[ii]);
                            assert(t@[ii] != '=');
                            assert(t@[ii] != ';');
                        }
                        assert(valid_account(account@));
                        let rhs = account@ + seq!['='] + dec_of(v as nat);
                        assert(account@.len() == k as int);
                        assert(rhs.len() == n as int);
                        assert forall|j: int| 0 <= j < n implies rhs[j] == t@[j] by {
                            if j < k {
                                assert(rhs[j] == account@[j]);
                                assert(account@[j] == t@.take(k as int)[j]);
                            } else if j == k {
                                assert(rhs[j] == '=');
                            } else {
                                assert(rhs[j] == dec_of(v as nat)[j - k - 1]);
                                assert(dec_of(v as nat)[j - k - 1] == t@.skip(k + 1)[j - k - 1]);
                            }
                        }
                        assert(t@ =~= rhs);
                    }
                    return Some((account, v));
                },
                None => {
                    proof {
                        assert forall|a: Seq<char>, v: u128|
                            valid_account(a) implies t@ != entry_text(a, v) by {
                            lemma_entry_text_chars(a, v);
                            if t@ == entry_text(a, v) {
                                // the first `=` sits right after the account
                                assert(t@[a.len() as int] == '=');
                                assert(a.len() >= k);
                                assert(a.len() <= k) by {
                                    if a.len() > k {
                                        assert(t@[k as int] != '=');
                                    }
                                }
                                assert(digits@ =~= dec_of(v as nat));
                            }
                        }
                    }
                    return None;
                },
            }
        }
        k += 1;
    }
    proof {
        assert forall|a: Seq<char>, v: u128| valid_account(a) implies t@ != entry_text(a, v) by {
            lemma_entry_text_chars(a, v);
            if t@ == entry_text(a, v) {
                assert(t@[a.len() as int] == '=');
            }
        }
    }
    None
}

/// The position of the first separator, if any.
fn find_semi(t: &str) -> (r: Option<usize>)
    ensures
        match r {
            Some(k) => k < t@.len() && t@[k as int] == ';' && forall|i: int|
                0 <= i < k ==> t@[i] != ';',
            None => forall|i: int| 0 <= i < t@.len() ==> t@[i] != ';',
        },
{
    let n = t.unicode_len();
    let mut k: usize = 0;
    while k < n
        invariant
            0 <= k <= n,
            n == t@.len(),
            forall|i: int| 0 <= i < k ==> t@[i] != ';',
        decreases n - k,
    {
        if t.get_char(k) == ';' {
            return Some(k);
        }
        k += 1;
    }
    None
}

/// Parse a nonempty `;`-separated payout entry list.
fn parse_entries(t: &str) -> (r: Option<Vec<(String, u128)>>)
    requires
        t@.len() >= 1,
    ensures
        match r {
            Some(es) => es@.len() >= 1 && valid_accounts(entries_view(es@)) && t@ == entries_text(
                entries_view(es@),
            ),
            None => forall|es: Seq<(Seq<char>, u128)>|
                es.len() >= 1 && valid_accounts(es) ==> t@ != entries_text(es),
        },
    decreases t@.len(),
{
    let n = t.unicode_len();
    let semi = find_semi(t);
    match semi {
        None => {
            // no separator: the whole text is one entry
            match parse_entry(t) {
                Some(e) => {
                    let mut es: Vec<(String, u128)> = Vec::new();
                    es.push(e);
                    proof {
                        assert(entries_view(es@).len() == 1);
                        assert(entries_view(es@)[0] == (e.0@, e.1));
                        assert(t@ == entries_text(entries_view(es@)));
                    }
                    Some(es)
                },
                None => {
                    proof {
                        assert forall|es: Seq<(Seq<char>, u128)>|
                            es.len() >= 1 && valid_accounts(es) implies t@ != entries_text(
                            es,
                        ) by {
                            lemma_entries_text_structure(es);
                            if t@ == entries_text(es) {
                                if es.len() >= 2 {
                                    let k0 = entry_text(es[0].0, es[0].1).len() as int;
                                    assert(t@[k0] == ';');
                                } else {
                                    assert(valid_account(es[0].0));
                                    assert(t@ != entry_text(es[0].0, es[0].1));
                                }
                            }
                        }
                    }
                    None
                },
            }
        },
        Some(k) => {
            if k + 1 == n {
                // a trailing separator closes no entry
                proof {
                    assert forall|es: Seq<(Seq<char>, u128)>|
                        es.len() >= 1 && valid_accounts(es) implies t@ != entries_text(es) by {
                        lemma_entries_text_structure(es);
                        if t@ == entries_text(es) {
                            if es.len() == 1 {
                                assert(t@[k as int] != ';');
                            } else {
                                let k0 = entry_text(es[0].0, es[0].1).len() as int;
                                assert(k as int == k0) by {
                                    if (k as int) < k0 {
                                        assert(t@[k as int] != ';');
                                    }
                                    if k0 < k as int {
                                        assert(t@[k0] == ';');
                                    }
                                }
                                lemma_entries_text_structure(es.drop_first());
                                assert(t@.skip(k0 + 1).len() >= 2);
                            }
                        }
                    }
                }
                return None;
            }
            let head = t.substring_char(0, k);
            let tail = t.substring_char(k + 1, n);
            proof {
                assert(head@ =~= t@.take(k as int));
                assert(tail@ =~= t@.skip(k + 1));
            }
            let e = match parse_entry(head) {
                Some(e) => e,
                None => {
                    proof {
                        assert forall|es: Seq<(Seq<char>, u128)>|
                            es.len() >= 1 && valid_accounts(es) implies t@ != entries_text(
                            es,
                        ) by {
                            lemma_entries_text_structure(es);
                            if t@ == entries_text(es) {
                                if es.len() == 1 {
                                    assert(t@[k as int] != ';');
                                } else {
                                    let k0 = entry_text(es[0].0, es[0].1).len() as int;
                                    assert(k as int == k0) by {
                                        if (k as int) < k0 {
                                            assert(t@[k as int] != ';');
                                        }
                                        if k0 < k as int {
                                            assert(t@[k0] == ';');
                                        }
                                    }
                                    assert(head@ == entry_text(es[0].0, es[0].1));
                                    assert(valid_account(es[0].0));
                                }
                            }
                        }
                    }
                    return None;
                },
            };
            match parse_entries(tail) {
                Some(mut es) => {
                    let ghost tail_es = es@;
                    es.insert(0, e);
                    proof {
                        let ev = entries_view(es@);
                        assert(es@ == tail_es.insert(0, e));
                        assert(es@.drop_first() =~= tail_es);
                        assert(ev.len() >= 2);
                        assert(ev[0] == (e.0@, e.1));
                        assert(ev.drop_first() =~= entries_view(tail_es));
                        assert(valid_accounts(ev)) by {
                            assert forall|ii: int| 0 <= ii < ev.len() implies valid_account(
                                ev[ii].0,
                            ) by {
                                if ii >= 1 {
                                    assert(ev[ii] == entries_view(tail_es)[ii - 1]);
                                }
                            }
                        }
                        assert(entries_text(ev) == entry_text(e.0@, e.1) + seq![';']
                            + entries_text(entries_view(tail_es)));
                        lemma_split_at(t@, k as int);
                        assert(t@ =~= head@ + seq![';'] + tail@);
                        assert(t@ == entries_text(ev));
                    }
                    Some(es)
                },
                None => {
                    proof {
                        assert forall|es: Seq<(Seq<char>, u128)>|
                            es.len() >= 1 && valid_accounts(es) implies t@ != entries_text(
                            es,
                        ) by {
                            lemma_entries_text_structure(es);
                            if t@ == entries_text(es) {
                                if es.len() == 1 {
                                    assert(t@[k as int] != ';');
                                } else {
                                    let k0 = entry_text(es[0].0, es[0].1).len() as int;
                                    assert(k as int == k0) by {
                                        if (k as int) < k0 {
                                            assert(t@[k as int] != ';');
                                        }
                                        if k0 < k as int {
                                            assert(t@[k0] == ';');
                                        }
                                    }
                                    assert(tail@ == entries_text(es.drop_first()));
                                    assert(es.drop_first().len() >= 1);
                                    assert(valid_accounts(es.drop_first())) by {
                                        assert(forall|i: int|
                                            0 <= i < es.drop_first().len() ==> es.drop_first()[i]
                                                == es[i + 1]);
                                    }
                                }
                            }
                        }
                    }
                    None
                },
            }
        },
    }
}

/// Parse a payout payload.
///
/// Returns `Some(entries)` exactly when the input is `payout_text` of an
/// entry list whose accounts the schema can carry.
pub fn parse_payout(t: &str) -> (r: Option<Vec<(String, u128)>>)
    ensures
        match r {
            Some(es) => valid_accounts(entries_view(es@)) && t@ == payout_text(entries_view(es@)),
            None => forall|es: Seq<(Seq<char>, u128)>|
                valid_accounts(es) ==> t@ != payout_text(es),
        },
{
    proof {
        reveal_strlit("payout-v1:");
    }
    let pat: &str = "payout-v1:";
    let n = t.unicode_len();
    if n < 10 {
        proof {
            assert forall|es: Seq<(Seq<char>, u128)>|
                valid_accounts(es) implies t@ != payout_text(es) by {
                if t@ == payout_text(es) {
                    assert(t@.len() >= 10);
                }
            }
        }
        return None;
    }
    let mut j: usize = 0;
    while j < 10
        invariant
            0 <= j <= 10,
            10 <= n == t@.len(),
            pat@ == payout_prefix(),
            pat@.len() == 10,
            forall|i: int| 0 <= i < j ==> t@[i] == payout_prefix()[i],
        decreases 10 - j,
    {
        if t.get_char(j) != pat.get_char(j) {
            proof {
                assert forall|es: Seq<(Seq<char>, u128)>|
                    valid_accounts(es) implies t@ != payout_text(es) by {
                    if t@ == payout_text(es) {
                        assert(t@[j as int] == payout_prefix()[j as int]);
                    }
                }
            }
            return None;
        }
        j += 1;
    }
    if n == 10 {
        let es: Vec<(String, u128)> = Vec::new();
        proof {
            assert(entries_view(es@) =~= Seq::<(Seq<char>, u128)>::empty());
            assert(t@ =~= payout_prefix());
            assert(payout_text(entries_view(es@)) =~= payout_prefix());
        }
        return Some(es);
    }
    let body = t.substring_char(10, n);
    proof {
        assert(body@ =~= t@.skip(10));
    }
    match parse_entries(body) {
        Some(es) => {
            proof {
                assert(t@ =~= payout_prefix() + t@.skip(10));
            }
            Some(es)
        },
        None => {
            proof {
                assert forall|es: Seq<(Seq<char>, u128)>|
                    valid_accounts(es) implies t@ != payout_text(es) by {
                    if t@ == payout_text(es) {
                        assert(body@ =~= entries_text(es));
                        if es.len() == 0 {
                            assert(entries_text(es).len() == 0);
                        }
                    }
                }
            }
            None
        },
    }
}

/// An entry list's text determines the list.
pub proof fn lemma_entries_text_injective(
    es1: Seq<(Seq<char>, u128)>,
    es2: Seq<(Seq<char>, u128)>,
)
    requires
        valid_accounts(es1),
        valid_accounts(es2),
        entries_text(es1) == entries_text(es2),
    ensures
        es1 == es2,
    decreases es1.len(),
{
    if es1.len() == 0 || es2.len() == 0 {
        if es1.len() >= 1 {
            lemma_entries_text_structure(es1);
            assert(false);
        }
        if es2.len() >= 1 {
            lemma_entries_text_structure(es2);
            assert(false);
        }
        assert(es1 =~= es2);
    } else {
        lemma_entries_text_structure(es1);
        lemma_entries_text_structure(es2);
        let t = entries_text(es1);
        let k1 = entry_text(es1[0].0, es1[0].1).len() as int;
        let k2 = entry_text(es2[0].0, es2[0].1).len() as int;
        if es1.len() == 1 && es2.len() == 1 {
            lemma_entry_text_injective(es1[0].0, es1[0].1, es2[0].0, es2[0].1);
            assert(es1[0] == es2[0]);
            assert(es1 =~= es2);
        } else if es1.len() == 1 {
            assert(t[k2] == ';');
            assert(false);
        } else if es2.len() == 1 {
            assert(t[k1] == ';');
            assert(false);
        } else {
            assert(k1 == k2) by {
                if k1 < k2 {
                    assert(t[k1] == ';');
                }
                if k2 < k1 {
                    assert(t[k2] == ';');
                }
            }
            assert(t.take(k1) == entry_text(es1[0].0, es1[0].1));
            assert(t.take(k2) == entry_text(es2[0].0, es2[0].1));
            lemma_entry_text_injective(es1[0].0, es1[0].1, es2[0].0, es2[0].1);
            assert(es1[0] == es2[0]);
            assert(entries_text(es1.drop_first()) == t.skip(k1 + 1));
            assert(entries_text(es2.drop_first()) == t.skip(k2 + 1));
            assert(valid_accounts(es1.drop_first())) by {
                assert(forall|i: int|
                    0 <= i < es1.drop_first().len() ==> es1.drop_first()[i] == es1[i + 1]);
            }
            assert(valid_accounts(es2.drop_first())) by {
                assert(forall|i: int|
                    0 <= i < es2.drop_first().len() ==> es2.drop_first()[i] == es2[i + 1]);
            }
            lemma_entries_text_injective(es1.drop_first(), es2.drop_first());
            assert(es1 =~= es2) by {
                assert(forall|i: int|
                    1 <= i < es1.len() ==> es1[i] == es1.drop_first()[i - 1] && es2[i]
                        == es2.drop_first()[i - 1]);
            }
        }
    }
}

/// A payout payload's text determines its entry list.
pub proof fn lemma_payout_text_injective(
    es1: Seq<(Seq<char>, u128)>,
    es2: Seq<(Seq<char>, u128)>,
)
    requires
        valid_accounts(es1),
        valid_accounts(es2),
        payout_text(es1) == payout_text(es2),
    ensures
        es1 == es2,
{
    assert(entries_text(es1) =~= payout_text(es1).skip(10)) by {
        reveal_strlit("payout-v1:");
    }
    assert(entries_text(es2) =~= payout_text(es2).skip(10)) by {
        reveal_strlit("payout-v1:");
    }
    lemma_entries_text_injective(es1, es2);
}

/// Appending one entry to a nonempty list appends `;` and the entry's text.
pub proof fn lemma_entries_text_snoc(es: Seq<(Seq<char>, u128)>, e: (Seq<char>, u128))
    requires
        es.len() >= 1,
    ensures
        entries_text(es.push(e)) == entries_text(es) + seq![';'] + entry_text(e.0, e.1),
    decreases es.len(),
{
    if es.len() == 1 {
        let p = es.push(e);
        assert(p.len() == 2);
        assert(p[0] == es[0]);
        assert(p.drop_first() =~= seq![e]);
        assert(entries_text(seq![e]) == entry_text(e.0, e.1));
        assert(entries_text(p) == entry_text(es[0].0, es[0].1) + seq![';'] + entry_text(
            e.0,
            e.1,
        ));
    } else {
        lemma_entries_text_snoc(es.drop_first(), e);
        let p = es.push(e);
        assert(p[0] == es[0]);
        assert(p.drop_first() =~= es.drop_first().push(e));
        assert(entries_text(p) == entry_text(es[0].0, es[0].1) + seq![';'] + entries_text(
            es.drop_first().push(e),
        ));
        assert(entry_text(es[0].0, es[0].1) + seq![';'] + (entries_text(es.drop_first())
            + seq![';'] + entry_text(e.0, e.1)) =~= (entry_text(es[0].0, es[0].1) + seq![';']
            + entries_text(es.drop_first())) + seq![';'] + entry_text(e.0, e.1));
    }
}

/// Write one payout entry as text.
fn entry_string(account: &String, amount: u128) -> (r: String)
    ensures
        r@ == entry_text(account@, amount),
{
    proof {
        reveal_strlit("=");
    }
    let mut s = account.clone();
    s.append("=");
    let d = dec_string(amount);
    s.append(d.as_str());
    proof {
        assert("="@ =~= seq!['=']);
        assert(s@ =~= account@ + seq!['='] + dec_of(amount as nat));
    }
    s
}

/// Write an entry list as a payout payload.
pub fn payout_string(entries: &Vec<(String, u128)>) -> (r: String)
    ensures
        r@ == payout_text(entries_view(entries@)),
{
    proof {
        reveal_strlit("payout-v1:");
        reveal_strlit(";");
    }
    let mut s = String::from_str("payout-v1:");
    let mut i: usize = 0;
    while i < entries.len()
        invariant
            0 <= i <= entries@.len(),
            s@ == payout_prefix() + entries_text(entries_view(entries@).take(i as int)),
        decreases entries@.len() - i,
    {
        let e = entry_string(&entries[i].0, entries[i].1);
        if i == 0 {
            s.append(e.as_str());
            proof {
                let ev = entries_view(entries@);
                assert(ev.take(1) =~= seq![(entries@[0].0@, entries@[0].1)]);
                assert(entries_text(ev.take(1)) == entry_text(entries@[0].0@, entries@[0].1));
                assert(entries_text(ev.take(0)) =~= Seq::<char>::empty());
                assert(payout_prefix() + entries_text(ev.take(0)) =~= payout_prefix());
                assert(s@ =~= payout_prefix() + entries_text(ev.take(1)));
            }
        } else {
            let ghost s0 = s@;
            s.append(";");
            s.append(e.as_str());
            proof {
                reveal_strlit(";");
                let ev = entries_view(entries@);
                let p = (entries@[i as int].0@, entries@[i as int].1);
                assert(ev.take(i + 1) =~= ev.take(i as int).push(p));
                lemma_entries_text_snoc(ev.take(i as int), p);
                assert(";"@ =~= seq![';']);
                assert(s@ == s0 + ";"@ + e@);
                assert(e@ == entry_text(p.0, p.1));
                assert(entries_text(ev.take(i + 1)) == entries_text(ev.take(i as int))
                    + seq![';'] + entry_text(p.0, p.1));
                assert((payout_prefix() + entries_text(ev.take(i as int))) + seq![';']
                    + entry_text(p.0, p.1) =~= payout_prefix() + (entries_text(ev.take(i as int))
                    + seq![';'] + entry_text(p.0, p.1)));
                assert(s@ =~= payout_prefix() + entries_text(ev.take(i + 1)));
            }
        }
        i += 1;
    }
    proof {
        assert(entries_view(entries@).take(entries@.len() as int) =~= entries_view(entries@));
        if entries@.len() == 0 {
            assert(entries_text(entries_view(entries@)) =~= Seq::<char>::empty());
            assert(s@ =~= payout_prefix() + entries_text(entries_view(entries@)));
        }
    }
    s
}

} // verus!
