//! The canonical RON form of a unit-stats record: a printer, a parser that
//! accepts exactly the canonical form, and a proof that the form loses no
//! field.

use vstd::prelude::*;

use crate::abilities::{ActiveAbilityType, PassiveCombatAbility};
use crate::assets::UnitStats;
use vstd::pervasive::arbitrary;
use vstd::seq_lib::lemma_concat_associative;

use crate::decimal::{
    dec_digits, dec_value, digit_val, is_dec_digit, lemma_dec_value_of_digits,
    lemma_digit_char_val, push_decimal,
};

verus! {

/// The RON token of a passive ability.
pub open spec fn passive_token(a: PassiveCombatAbility) -> Seq<char> {
    match a {
        PassiveCombatAbility::ArmorBreak => "ArmorBreak"@,
        PassiveCombatAbility::HitAndRun => "HitAndRun"@,
    }
}

/// The RON token of an active ability.
pub open spec fn active_token(a: ActiveAbilityType) -> Seq<char> {
    match a {
        ActiveAbilityType::ThrowJavelin => "ThrowJavelin"@,
    }
}

/// A comma-separated list of passive-ability tokens.
pub open spec fn passive_tokens(s: Seq<PassiveCombatAbility>) -> Seq<char>
    decreases s.len(),
{
    if s.len() == 0 {
        Seq::<char>::empty()
    } else if s.len() == 1 {
        passive_token(s[0])
    } else {
        passive_token(s[0]) + ","@ + passive_tokens(s.skip(1))
    }
}

/// A comma-separated list of active-ability tokens.
pub open spec fn active_tokens(s: Seq<ActiveAbilityType>) -> Seq<char>
    decreases s.len(),
{
    if s.len() == 0 {
        Seq::<char>::empty()
    } else if s.len() == 1 {
        active_token(s[0])
    } else {
        active_token(s[0]) + ","@ + active_tokens(s.skip(1))
    }
}

/// A name can stand in the canonical form unescaped: it holds no quote and
/// no backslash.
pub open spec fn name_ok(s: Seq<char>) -> bool {
    forall|k: int| 0 <= k < s.len() ==> #[trigger] s[k] != '"' && s[k] != '\\'
}

/// The canonical RON text of a stats record: every field in declaration
/// order, without whitespace.
pub open spec fn ron_of(st: UnitStats) -> Seq<char> {
    "(name:\""@ + st.name@ + "\",max_action_points:"@ + dec_digits(st.max_action_points as nat)
        + ",max_health_points:"@ + dec_digits(st.max_health_points as nat) + ",damage:"@
        + dec_digits(st.damage as nat) + ",defense:"@ + dec_digits(st.defense as nat)
        + ",attack_action_point_cost:"@ + dec_digits(st.attack_action_point_cost as nat)
        + ",max_attacks_per_round:"@ + dec_digits(st.max_attacks_per_round as nat) + ",range:"@
        + dec_digits(st.range as nat) + ",passive_combat_abilities:["@ + passive_tokens(
        st.passive_combat_abilities@,
    ) + "],active_abilities:["@ + active_tokens(st.active_abilities@) + "])"@
}

/// Appending one ability to a list appends its token (and a separator when
/// the list was not empty).
proof fn lemma_passive_tokens_push(s: Seq<PassiveCombatAbility>, t: PassiveCombatAbility)
    ensures
        passive_tokens(s.push(t)) == if s.len() == 0 {
            passive_token(t)
        } else {
            passive_tokens(s) + ","@ + passive_token(t)
        },
    decreases s.len(),
{
    if s.len() == 0 {
        assert(s.push(t)[0] == t);
        assert(s.push(t).len() == 1);
    } else {
        lemma_passive_tokens_push(s.skip(1), t);
        assert(s.push(t).skip(1) =~= s.skip(1).push(t));
        assert(s.push(t)[0] == s[0]);
        if s.len() == 1 {
            assert(passive_tokens(s.push(t)) == passive_token(s[0]) + ","@ + passive_tokens(
                s.skip(1).push(t),
            ));
            assert(s.skip(1).len() == 0);
            assert(passive_tokens(s) == passive_token(s[0]));
        } else {
            assert(passive_tokens(s) + ","@ + passive_token(t) =~= passive_token(s[0]) + ","@ + (
            passive_tokens(s.skip(1)) + ","@ + passive_token(t)));
        }
    }
}

proof fn lemma_active_tokens_push(s: Seq<ActiveAbilityType>, t: ActiveAbilityType)
    ensures
        active_tokens(s.push(t)) == if s.len() == 0 {
            active_token(t)
        } else {
            active_tokens(s) + ","@ + active_token(t)
        },
    decreases s.len(),
{
    if s.len() == 0 {
        assert(s.push(t)[0] == t);
        assert(s.push(t).len() == 1);
    } else {
        lemma_active_tokens_push(s.skip(1), t);
        assert(s.push(t).skip(1) =~= s.skip(1).push(t));
        assert(s.push(t)[0] == s[0]);
        if s.len() == 1 {
            assert(s.skip(1).len() == 0);
        } else {
            assert(active_tokens(s) + ","@ + active_token(t) =~= active_token(s[0]) + ","@ + (
            active_tokens(s.skip(1)) + ","@ + active_token(t)));
        }
    }
}

fn push_passive_token(out: &mut Vec<char>, a: PassiveCombatAbility)
    ensures
        final(out)@ == old(out)@ + passive_token(a),
{
    match a {
        PassiveCombatAbility::ArmorBreak => crate::strutil::push_str_chars(out, "ArmorBreak"),
        PassiveCombatAbility::HitAndRun => crate::strutil::push_str_chars(out, "HitAndRun"),
    }
}

fn push_active_token(out: &mut Vec<char>, a: ActiveAbilityType)
    ensures
        final(out)@ == old(out)@ + active_token(a),
{
    match a {
        ActiveAbilityType::ThrowJavelin => crate::strutil::push_str_chars(out, "ThrowJavelin"),
    }
}

fn push_passive_tokens(out: &mut Vec<char>, v: &Vec<PassiveCombatAbility>)
    ensures
        final(out)@ == old(out)@ + passive_tokens(v@),
{
    let mut i: usize = 0;
    proof {
        assert(old(out)@ + passive_tokens(v@.subrange(0, 0)) =~= old(out)@);
    }
    while i < v.len()
        invariant
            i <= v@.len(),
            out@ == old(out)@ + passive_tokens(v@.subrange(0, i as int)),
        decreases v@.len() - i,
    {
        if i > 0 {
            crate::strutil::push_str_chars(out, ",");
        }
        push_passive_token(out, v[i]);
        proof {
            assert(v@.subrange(0, i + 1) =~= v@.subrange(0, i as int).push(v@[i as int]));
            lemma_passive_tokens_push(v@.subrange(0, i as int), v@[i as int]);
            if i > 0 {
                assert(out@ =~= old(out)@ + passive_tokens(v@.subrange(0, i + 1)));
            } else {
                assert(out@ =~= old(out)@ + passive_tokens(v@.subrange(0, i + 1)));
            }
        }
        i = i + 1;
    }
    proof {
        assert(v@.subrange(0, v@.len() as int) =~= v@);
    }
}

fn push_active_tokens(out: &mut Vec<char>, v: &Vec<ActiveAbilityType>)
    ensures
        final(out)@ == old(out)@ + active_tokens(v@),
{
    let mut i: usize = 0;
    proof {
        assert(old(out)@ + active_tokens(v@.subrange(0, 0)) =~= old(out)@);
    }
    while i < v.len()
        invariant
            i <= v@.len(),
            out@ == old(out)@ + active_tokens(v@.subrange(0, i as int)),
        decreases v@.len() - i,
    {
        if i > 0 {
            crate::strutil::push_str_chars(out, ",");
        }
        push_active_token(out, v[i]);
        proof {
            assert(v@.subrange(0, i + 1) =~= v@.subrange(0, i as int).push(v@[i as int]));
            lemma_active_tokens_push(v@.subrange(0, i as int), v@[i as int]);
            assert(out@ =~= old(out)@ + active_tokens(v@.subrange(0, i + 1)));
        }
        i = i + 1;
    }
    proof {
        assert(v@.subrange(0, v@.len() as int) =~= v@);
    }
}

/// Serializes a stats record into its canonical RON text.
pub fn to_ron_string(st: &UnitStats) -> (res: String)
    ensures
        res@ == ron_of(*st),
{
    let mut out: Vec<char> = Vec::new();
    crate::strutil::push_str_chars(&mut out, "(name:\"");
    crate::strutil::push_chars_of_string(&mut out, &st.name);
    crate::strutil::push_str_chars(&mut out, "\",max_action_points:");
    push_decimal(&mut out, st.max_action_points as u64);
    crate::strutil::push_str_chars(&mut out, ",max_health_points:");
    push_decimal(&mut out, st.max_health_points as u64);
    crate::strutil::push_str_chars(&mut out, ",damage:");
    push_decimal(&mut out, st.damage as u64);
    crate::strutil::push_str_chars(&mut out, ",defense:");
    push_decimal(&mut out, st.defense as u64);
    crate::strutil::push_str_chars(&mut out, ",attack_action_point_cost:");
    push_decimal(&mut out, st.attack_action_point_cost as u64);
    crate::strutil::push_str_chars(&mut out, ",max_attacks_per_round:");
    push_decimal(&mut out, st.max_attacks_per_round as u64);
    crate::strutil::push_str_chars(&mut out, ",range:");
    push_decimal(&mut out, st.range as u64);
    crate::strutil::push_str_chars(&mut out, ",passive_combat_abilities:[");
    push_passive_tokens(&mut out, &st.passive_combat_abilities);
    crate::strutil::push_str_chars(&mut out, "],active_abilities:[");
    push_active_tokens(&mut out, &st.active_abilities);
    crate::strutil::push_str_chars(&mut out, "])");
    proof {
        assert(out@ =~= ron_of(*st));
    }
    crate::strutil::chars_to_string(&out)
}


/// A digit run with no spurious leading zero is the canonical form of its
/// value.
proof fn lemma_digits_canonical(x: Seq<char>)
    requires
        x.len() >= 1,
        crate::decimal::all_dec_digits(x),
        x.len() > 1 ==> x[0] != '0',
    ensures
        dec_digits(dec_value(x)) == x,
    decreases x.len(),
{
    if x.len() == 1 {
        assert(digit_val(x[0]) < 10) by {
            assert(is_dec_digit(x[0]));
        }
        lemma_digit_char_val(digit_val(x[0]));
        assert(crate::decimal::digit_char(digit_val(x[0])) == x[0]) by {
            assert(is_dec_digit(x[0]));
        }
        assert(dec_value(x) == digit_val(x[0])) by {
            assert(x.drop_last() =~= Seq::<char>::empty());
            assert(dec_value(Seq::<char>::empty()) == 0);
            assert(x.last() == x[0]);
        }
        assert(dec_digits(dec_value(x)) =~= seq![x[0]]);
        assert(seq![x[0]] =~= x);
    } else {
        let y = x.drop_last();
        assert(crate::decimal::all_dec_digits(y)) by {
            assert(forall|k: int| 0 <= k < y.len() ==> y[k] == #[trigger] x[k]);
        }
        assert(y[0] == x[0]);
        lemma_digits_canonical(y);
        lemma_value_positive(y);
        let d = digit_val(x.last());
        assert(d < 10) by {
            assert(is_dec_digit(x.last()));
        }
        let n = dec_value(x);
        assert(n == dec_value(y) * 10 + d);
        assert(n >= 10) by {
            assert(dec_value(y) >= 1);
        }
        assert(n / 10 == dec_value(y) && n % 10 == d) by (nonlinear_arith)
            requires
                n == dec_value(y) * 10 + d,
                d < 10,
                dec_value(y) >= 0,
        ;
        lemma_digit_char_val(d);
        assert(crate::decimal::digit_char(d) == x.last()) by {
            assert(is_dec_digit(x.last()));
        }
        assert(dec_digits(n) == dec_digits(n / 10) + seq![crate::decimal::digit_char(n % 10)]);
        assert(dec_digits(n) =~= y + seq![x.last()]);
        assert(y + seq![x.last()] =~= x);
    }
}

/// A digit run that does not start with zero denotes a positive number.
proof fn lemma_value_positive(y: Seq<char>)
    requires
        y.len() >= 1,
        crate::decimal::all_dec_digits(y),
        y[0] != '0',
    ensures
        dec_value(y) >= 1,
    decreases y.len(),
{
    if y.len() == 1 {
        assert(is_dec_digit(y[0]));
        assert(y.last() == y[0]);
        assert(digit_val(y[0]) >= 1) by {
            assert(y[0] != '0' && '0' <= y[0] && y[0] <= '9');
        }
        assert(y.drop_last() =~= Seq::<char>::empty());
    } else {
        let z = y.drop_last();
        assert(crate::decimal::all_dec_digits(z)) by {
            assert(forall|k: int| 0 <= k < z.len() ==> z[k] == #[trigger] y[k]);
        }
        assert(z[0] == y[0]);
        lemma_value_positive(z);
        assert(dec_value(y) == dec_value(z) * 10 + digit_val(y.last()));
    }
}

/// Consumes `lit` at position `i`: on success the consumed slice is exactly
/// the literal's characters.
fn expect_lit(v: &Vec<char>, i: usize, lit: &str) -> (res: Option<usize>)
    ensures
        res matches Some(j) ==> i + lit@.len() == j && j <= v@.len() && v@.subrange(
            i as int,
            j as int,
        ) == lit@,
        res is None ==> !(i + lit@.len() <= v@.len() && v@.subrange(
            i as int,
            i + lit@.len(),
        ) == lit@),
{
    let l = crate::strutil::str_to_chars(lit);
    if i >= v.len() || v.len() - i < l.len() {
        if l.len() == 0 && i <= v.len() {
            proof {
                assert(v@.subrange(i as int, i as int) =~= lit@);
            }
            return Some(i);
        }
        return None;
    }
    let vlen = v.len();
    let llen = l.len();
    let mut k: usize = 0;
    while k < llen
        invariant
            k <= llen,
            llen == l@.len(),
            vlen == v@.len(),
            l@ == lit@,
            i + llen <= vlen,
            forall|m: int| 0 <= m < k ==> v@[i + m] == l@[m],
        decreases llen - k,
    {
        if v[i + k] != l[k] {
            proof {
                if v@.subrange(i as int, i + lit@.len()) == lit@ {
                    assert(v@.subrange(i as int, i + lit@.len())[k as int] == v@[i + k]);
                    assert(lit@[k as int] == l@[k as int]);
                }
            }
            return None;
        }
        k = k + 1;
    }
    proof {
        assert(v@.subrange(i as int, i + l@.len()) =~= l@);
    }
    Some(i + l.len())
}

/// Finds the closing quote of a name: on success `v[j]` is the first quote
/// at or after `i`, and the slice before it holds no quote and no
/// backslash.
fn scan_name(v: &Vec<char>, i: usize) -> (res: Option<usize>)
    ensures
        res matches Some(j) ==> i <= j < v@.len() && v@[j as int] == '"' && name_ok(
            v@.subrange(i as int, j as int),
        ),
        res is None ==> forall|j2: int|
            i <= j2 < v@.len() && v@[j2] == '"' ==> exists|m: int|
                i <= m < j2 && (#[trigger] v@[m] == '"' || v@[m] == '\\'),
{
    if i >= v.len() {
        return None;
    }
    let mut j: usize = i;
    while j < v.len()
        invariant
            i <= j <= v@.len(),
            forall|m: int| i <= m < j ==> #[trigger] v@[m] != '"' && v@[m] != '\\',
        decreases v@.len() - j,
    {
        if v[j] == '"' {
            proof {
                assert forall|k: int|
                    0 <= k < v@.subrange(i as int, j as int).len() implies #[trigger] v@.subrange(
                    i as int,
                    j as int,
                )[k] != '"' && v@.subrange(i as int, j as int)[k] != '\\' by {
                    assert(v@.subrange(i as int, j as int)[k] == v@[i + k]);
                }
            }
            return Some(j);
        }
        if v[j] == '\\' {
            proof {
                assert forall|j2: int|
                    i <= j2 < v@.len() && v@[j2] == '"' implies exists|m: int|
                        i <= m < j2 && (#[trigger] v@[m] == '"' || v@[m] == '\\') by {
                    assert(j2 > j);
                    assert(v@[j as int] == '"' || v@[j as int] == '\\');
                }
            }
            return None;
        }
        j = j + 1;
    }
    None
}

/// The canonical digits of `n` stand at `[i, j)` of `v`, delimited by the
/// text's end or a non-digit.
pub open spec fn digits_at(v: Seq<char>, i: int, n: u64, j: int) -> bool {
    &&& i + dec_digits(n as nat).len() == j
    &&& j <= v.len()
    &&& v.subrange(i, j) == dec_digits(n as nat)
    &&& (j == v.len() || !is_dec_digit(v[j]))
}

/// Only zero's canonical form starts with the zero digit.
proof fn lemma_dec_digits_no_leading_zero(n: nat)
    ensures
        n > 0 ==> dec_digits(n)[0] != '0',
    decreases n,
{
    if n >= 10 {
        lemma_dec_digits_no_leading_zero(n / 10);
        crate::decimal::lemma_dec_digits_all_digits(n / 10);
        assert(dec_digits(n)[0] == dec_digits(n / 10)[0]);
    } else if n > 0 {
        crate::decimal::lemma_digit_char_val(n);
        assert(dec_digits(n)[0] == crate::decimal::digit_char(n));
        assert(digit_val(crate::decimal::digit_char(n)) == n);
    }
}

/// The value of a digit-string prefix never exceeds the whole string's.
proof fn lemma_dec_value_prefix_monotone(s: Seq<char>, c: int)
    requires
        0 <= c <= s.len(),
        crate::decimal::all_dec_digits(s),
    ensures
        dec_value(s.subrange(0, c)) <= dec_value(s),
    decreases s.len() - c,
{
    if c < s.len() {
        lemma_dec_value_prefix_monotone(s, c + 1);
        assert(s.subrange(0, c + 1).drop_last() =~= s.subrange(0, c));
        assert(s.subrange(0, c + 1).last() == s[c]);
        assert(dec_value(s.subrange(0, c + 1)) == dec_value(s.subrange(0, c)) * 10 + digit_val(
            s[c],
        ));
    } else {
        assert(s.subrange(0, c) =~= s);
    }
}

/// Two delimited canonical digit runs from one position agree.
proof fn lemma_digits_at_unique(v: Seq<char>, i: int, n1: u64, j1: int, n2: u64, j2: int)
    requires
        0 <= i,
        digits_at(v, i, n1, j1),
        digits_at(v, i, n2, j2),
    ensures
        n1 == n2,
        j1 == j2,
{
    crate::decimal::lemma_dec_digits_all_digits(n1 as nat);
    crate::decimal::lemma_dec_digits_all_digits(n2 as nat);
    assert(i < j1);
    assert(i < j2);
    if j1 < j2 {
        let k = j1 - i;
        assert(0 <= k < j2 - i);
        assert(v.subrange(i, j2)[k] == v[i + k]);
        assert(i + k == j1);
        assert(is_dec_digit(dec_digits(n2 as nat)[k]));
        assert(is_dec_digit(v[j1]));
        assert(false);
    }
    if j2 < j1 {
        let k = j2 - i;
        assert(0 <= k < j1 - i);
        assert(v.subrange(i, j1)[k] == v[i + k]);
        assert(i + k == j2);
        assert(is_dec_digit(dec_digits(n1 as nat)[k]));
        assert(is_dec_digit(v[j2]));
        assert(false);
    }
    assert(dec_digits(n1 as nat) == dec_digits(n2 as nat));
    lemma_dec_value_of_digits(n1 as nat);
    lemma_dec_value_of_digits(n2 as nat);
}

/// Parses a canonical decimal number at `i`: on success the consumed slice
/// is exactly the canonical digits of the value, and the run is maximal.
fn parse_number(v: &Vec<char>, i: usize) -> (res: Option<(u64, usize)>)
    ensures
        res matches Some((n, j)) ==> digits_at(v@, i as int, n, j as int) && i < j,
        res is None ==> forall|n: u64, j: int| !(#[trigger] digits_at(v@, i as int, n, j)),
{
    proof {
        assert forall|n: u64, j: int| #[trigger] digits_at(v@, i as int, n, j) implies i
            < v@.len() && is_dec_digit(v@[i as int]) by {
            crate::decimal::lemma_dec_digits_all_digits(n as nat);
            assert(v@.subrange(i as int, j)[0] == v@[i as int]);
            assert(is_dec_digit(dec_digits(n as nat)[0]));
        }
    }
    if i >= v.len() {
        return None;
    }
    let c0 = v[i];
    if !('0' <= c0 && c0 <= '9') {
        return None;
    }
    if c0 == '0' {
        if i + 1 < v.len() && '0' <= v[i + 1] && v[i + 1] <= '9' {
            proof {
                assert forall|n: u64, j: int|
                    !(#[trigger] digits_at(v@, i as int, n, j)) by {
                    if digits_at(v@, i as int, n, j) {
                        lemma_dec_digits_no_leading_zero(n as nat);
                        assert(v@.subrange(i as int, j)[0] == v@[i as int]);
                        assert(dec_digits(n as nat)[0] == '0');
                        assert(n == 0);
                        assert(j == i + 1);
                        assert(!is_dec_digit(v@[j]));
                    }
                }
            }
            return None;
        }
        proof {
            assert(v@.subrange(i as int, i + 1) =~= seq![v@[i as int]]);
            assert(dec_value(seq![v@[i as int]]) == 0) by {
                assert(seq![v@[i as int]].drop_last() =~= Seq::<char>::empty());
                assert(dec_value(Seq::<char>::empty()) == 0);
                assert(seq![v@[i as int]].last() == '0');
                assert(digit_val('0') == 0);
            }
            lemma_digits_canonical(seq![v@[i as int]]);
        }
        return Some((0, i + 1));
    }
    let mut acc: u64 = (c0 as u8 - '0' as u8) as u64;
    let mut j: usize = i + 1;
    proof {
        assert(v@.subrange(i as int, i + 1) =~= seq![v@[i as int]]);
        assert(dec_value(seq![v@[i as int]]) == digit_val(v@[i as int])) by {
            assert(seq![v@[i as int]].drop_last() =~= Seq::<char>::empty());
            assert(dec_value(Seq::<char>::empty()) == 0);
            assert(seq![v@[i as int]].last() == v@[i as int]);
        }
        assert(acc == digit_val(v@[i as int])) by {
            assert('0' <= c0 <= '9');
        }
    }
    while j < v.len() && '0' <= v[j] && v[j] <= '9'
        invariant
            i < j <= v@.len(),
            crate::decimal::all_dec_digits(v@.subrange(i as int, j as int)),
            v@[i as int] != '0',
            acc == dec_value(v@.subrange(i as int, j as int)),
            forall|n: u64, jh: int|
                #[trigger] digits_at(v@, i as int, n, jh) ==> j <= jh,
        decreases v@.len() - j,
    {
        let d = (v[j] as u8 - '0' as u8) as u64;
        proof {
            assert forall|n: u64, jh: int|
                #[trigger] digits_at(v@, i as int, n, jh) implies j + 1 <= jh by {
                assert(j < jh) by {
                    if j == jh {
                        assert(is_dec_digit(v@[j as int]));
                    }
                }
            }
        }
        if acc > (u64::MAX - d) / 10 {
            proof {
                assert forall|n: u64, jh: int|
                    !(#[trigger] digits_at(v@, i as int, n, jh)) by {
                    if digits_at(v@, i as int, n, jh) {
                        let run = dec_digits(n as nat);
                        crate::decimal::lemma_dec_digits_all_digits(n as nat);
                        assert forall|k: int|
                            0 <= k < jh - i implies v@.subrange(i as int, jh)[k] == #[trigger] v@[
                            i + k
                        ] by {}
                        assert(crate::decimal::all_dec_digits(v@.subrange(i as int, jh)));
                        lemma_dec_value_prefix_monotone(v@.subrange(i as int, jh), j + 1 - i);
                        assert(v@.subrange(i as int, jh).subrange(0, j + 1 - i) =~= v@.subrange(
                            i as int,
                            j + 1,
                        ));
                        assert(v@.subrange(i as int, j + 1).drop_last() =~= v@.subrange(
                            i as int,
                            j as int,
                        ));
                        assert(v@.subrange(i as int, j + 1).last() == v@[j as int]);
                        assert(dec_value(v@.subrange(i as int, j + 1)) == acc * 10 + digit_val(
                            v@[j as int],
                        ));
                        assert(d == digit_val(v@[j as int])) by {
                            assert('0' <= v@[j as int] <= '9');
                        }
                        lemma_dec_value_of_digits(n as nat);
                        assert(dec_value(v@.subrange(i as int, jh)) == n);
                        assert(acc * 10 + d <= n);
                        assert(acc * 10 + d > u64::MAX) by (nonlinear_arith)
                            requires
                                acc > (u64::MAX - d) / 10,
                                0 <= d < 10,
                        ;
                    }
                }
            }
            return None;
        }
        proof {
            let pre = v@.subrange(i as int, j as int);
            let post = v@.subrange(i as int, j + 1);
            assert(post.drop_last() =~= pre);
            assert(post.last() == v@[j as int]);
            assert(d == digit_val(v@[j as int])) by {
                assert('0' <= v@[j as int] <= '9');
            }
            assert(acc * 10 + d <= u64::MAX) by (nonlinear_arith)
                requires
                    acc <= (u64::MAX - d) / 10,
                    0 <= d < 10,
                    acc >= 0,
            ;
            assert(crate::decimal::all_dec_digits(post)) by {
                assert(forall|k: int| 0 <= k < pre.len() ==> post[k] == #[trigger] pre[k]);
            }
        }
        acc = acc * 10 + d;
        j = j + 1;
    }
    proof {
        let run = v@.subrange(i as int, j as int);
        assert(run[0] == v@[i as int]);
        assert(run.len() >= 1);
        lemma_digits_canonical(run);
    }
    Some((acc, j))
}

/// Splitting a known slice of `w` into two pieces locates each piece.
proof fn lemma_concat_prefix(w: Seq<char>, j: int, end: int, a: Seq<char>, b: Seq<char>)
    requires
        0 <= j <= end <= w.len(),
        end - j == a.len() + b.len(),
        w.subrange(j, end) == a + b,
    ensures
        w.subrange(j, j + a.len()) == a,
        w.subrange(j + a.len(), end) == b,
{
    assert forall|k: int| 0 <= k < a.len() implies w.subrange(j, j + a.len())[k] == a[k] by {
        assert(w.subrange(j, end)[k] == (a + b)[k]);
        assert(w.subrange(j, end)[k] == w[j + k]);
        assert(w.subrange(j, j + a.len())[k] == w[j + k]);
    }
    assert(w.subrange(j, j + a.len()) =~= a);
    assert forall|k: int| 0 <= k < b.len() implies w.subrange(j + a.len(), end)[k] == b[k] by {
        assert(w.subrange(j, end)[a.len() + k] == (a + b)[a.len() + k]);
        assert(w.subrange(j, end)[a.len() + k] == w[j + a.len() + k]);
        assert(w.subrange(j + a.len(), end)[k] == w[j + a.len() + k]);
    }
    assert(w.subrange(j + a.len(), end) =~= b);
}

/// The canonical token text of `gl` stands at `[i, end)` of `v`, closed by
/// a bracket.
pub open spec fn passive_region_at(
    v: Seq<char>,
    i: int,
    gl: Seq<PassiveCombatAbility>,
    end: int,
) -> bool {
    &&& 0 <= i
    &&& i + passive_tokens(gl).len() == end
    &&& end < v.len()
    &&& v.subrange(i, end) == passive_tokens(gl)
    &&& v[end] == ']'
}

/// The canonical token text of `gl` stands at `[i, end)` of `v`, closed by
/// a bracket.
pub open spec fn active_region_at(
    v: Seq<char>,
    i: int,
    gl: Seq<ActiveAbilityType>,
    end: int,
) -> bool {
    &&& 0 <= i
    &&& i + active_tokens(gl).len() == end
    &&& end < v.len()
    &&& v.subrange(i, end) == active_tokens(gl)
    &&& v[end] == ']'
}

/// Parses a comma-separated passive-ability list up to (not including) the
/// closing bracket: exactly the canonical token region is consumed, and a
/// canonical region always parses to its own list.
fn parse_passive_list(v: &Vec<char>, i: usize) -> (res: Option<(Vec<PassiveCombatAbility>, usize)>)
    ensures
        res matches Some((list, j)) ==> i <= j <= v@.len() && v@.subrange(i as int, j as int)
            == passive_tokens(list@) && (j == v@.len() || v@[j as int] != ',') && (list@.len() == 0
            ==> j == i && i < v@.len() && v@[i as int] == ']'),
        forall|gl: Seq<PassiveCombatAbility>, end: int|
            #[trigger] passive_region_at(v@, i as int, gl, end) ==> (res matches Some((list, j)) && list@
                == gl && j as int == end),
{
    proof {
        reveal_strlit("ArmorBreak");
            reveal_strlit("HitAndRun");
        reveal_strlit(",");
        assert(","@ =~= seq![',']);
    }
    let ghost hyp = exists|gl: Seq<PassiveCombatAbility>, end: int| passive_region_at(v@, i as int, gl, end);
    let ghost (gl0, end0): (Seq<PassiveCombatAbility>, int) = if hyp {
        choose|gl: Seq<PassiveCombatAbility>, end: int| passive_region_at(v@, i as int, gl, end)
    } else {
        (Seq::<PassiveCombatAbility>::empty(), 0int)
    };
    let mut out: Vec<PassiveCombatAbility> = Vec::new();
    if i < v.len() && v[i] == ']' {
        proof {
            assert(v@.subrange(i as int, i as int) =~= passive_tokens(out@));
            if hyp {
                if gl0.len() > 0 {
                    assert(v@.subrange(i as int, end0)[0] == v@[i as int]);
                    assert(passive_tokens(gl0)[0] == passive_token(gl0[0])[0]);
                    assert(false);
                }
                assert(out@ =~= gl0);
                assert forall|gl: Seq<PassiveCombatAbility>, end: int|
                        #[trigger] passive_region_at(v@, i as int, gl, end) implies gl == gl0 && end
                        == end0 by {
                        lemma_passive_tokens_no_bracket(gl);
                        lemma_passive_tokens_no_bracket(gl0);
                        if end < end0 {
                            assert(v@.subrange(i as int, end0)[end - i] == v@[end as int]);
                            assert(passive_tokens(gl0)[end - i] != ']');
                            assert(false);
                        }
                        if end0 < end {
                            assert(v@.subrange(i as int, end)[end0 - i] == v@[end0 as int]);
                            assert(passive_tokens(gl)[end0 - i] != ']');
                            assert(false);
                        }
                        assert(passive_tokens(gl) == v@.subrange(i as int, end));
                        assert(passive_tokens(gl) == passive_tokens(gl0));
                        lemma_passive_tokens_injective(gl, gl0);
                    }
            }
        }
        return Some((out, i));
    }
    if i >= v.len() {
        proof {
            if hyp {
                assert(false);
            }
        }
        return None;
    }
    let mut j: usize = i;
    proof {
        assert(v@.subrange(i as int, i as int) =~= passive_tokens(out@) + Seq::<char>::empty());
        if hyp {
            if gl0.len() == 0 {
                assert(v@.subrange(i as int, end0) =~= Seq::<char>::empty());
                assert(v@[i as int] == ']');
                assert(false);
            }
            assert(gl0.subrange(0, gl0.len() as int) =~= gl0);
        }
    }
    loop
        invariant
            i <= j <= v@.len(),
            v@.subrange(i as int, j as int) == passive_tokens(out@) + (if out@.len() == 0 {
                Seq::<char>::empty()
            } else {
                ","@
            }),
            hyp == exists|gl: Seq<PassiveCombatAbility>, end: int| passive_region_at(v@, i as int, gl, end),
            hyp ==> passive_region_at(v@, i as int, gl0, end0) && out@.len() < gl0.len() && out@ == gl0
                .subrange(0, out@.len() as int) && j as int <= end0 && v@.subrange(j as int, end0)
                == passive_tokens(gl0.subrange(out@.len() as int, gl0.len() as int)),
        decreases v@.len() - j,
    {
        let ghost consumed = v@.subrange(i as int, j as int);
        proof {
            reveal_strlit("ArmorBreak");
            reveal_strlit("HitAndRun");
            reveal_strlit(",");
            assert(","@ =~= seq![',']);
            if hyp {
                let c = out@.len() as int;
                let suffix = gl0.subrange(c, gl0.len() as int);
                assert(suffix[0] == gl0[c]);
                assert(suffix.skip(1) =~= gl0.subrange(c + 1, gl0.len() as int));
                assert(end0 - j == passive_tokens(suffix).len()) by {
                    assert(v@.subrange(j as int, end0).len() == end0 - j);
                }
                if c + 1 == gl0.len() {
                    assert(passive_tokens(suffix) == passive_token(gl0[c]));
                    assert(passive_token(gl0[c]) + Seq::<char>::empty() =~= passive_token(gl0[c]));
                    lemma_concat_prefix(
                        v@,
                        j as int,
                        end0,
                        passive_token(gl0[c]),
                        Seq::<char>::empty(),
                    );
                } else {
                    assert(passive_tokens(suffix) == passive_token(gl0[c]) + ","@ + passive_tokens(suffix.skip(1)));
                    lemma_concat_associative(passive_token(gl0[c]), ","@, passive_tokens(suffix.skip(1)));
                    lemma_concat_prefix(
                        v@,
                        j as int,
                        end0,
                        passive_token(gl0[c]),
                        ","@ + passive_tokens(suffix.skip(1)),
                    );
                }
                assert(v@.subrange(j as int, j + passive_token(gl0[c]).len()) == passive_token(gl0[c]));
            }
        }
        let (ability, j2) = if let Some(j2) = expect_lit(v, j, "ArmorBreak") {
            (PassiveCombatAbility::ArmorBreak, j2)
        } else if let Some(j2) = expect_lit(v, j, "HitAndRun") {
            (PassiveCombatAbility::HitAndRun, j2)
        } else {
            proof {
                if hyp {
                    assert(false);
                }
            }
            return None;
        };
        proof {
            lemma_passive_tokens_push(out@, ability);
            assert(v@.subrange(i as int, j2 as int) =~= consumed + v@.subrange(
                j as int,
                j2 as int,
            ));
            assert(v@.subrange(i as int, j2 as int) =~= passive_tokens(out@.push(ability)));
            if hyp {
                let c = out@.len() as int;
                assert(ability == gl0[c]) by {
                    if ability == PassiveCombatAbility::ArmorBreak && gl0[c]
                        == PassiveCombatAbility::HitAndRun {
                        assert(v@.subrange(j as int, j2 as int)[0] == v@[j as int]);
                        assert(v@.subrange(j as int, j + passive_token(gl0[c]).len())[0] == v@[
                            j as int
                        ]);
                        assert("ArmorBreak"@[0] == 'A');
                        assert("HitAndRun"@[0] == 'H');
                        assert(false);
                    }
                    if ability == PassiveCombatAbility::HitAndRun && gl0[c]
                        == PassiveCombatAbility::ArmorBreak {
                        assert(v@.subrange(j as int, j2 as int)[0] == v@[j as int]);
                        assert(v@.subrange(j as int, j + passive_token(gl0[c]).len())[0] == v@[
                            j as int
                        ]);
                        assert(false);
                    }
                }
                assert(j2 == j + passive_token(gl0[c]).len());
                assert(out@.push(ability) =~= gl0.subrange(0, c + 1));
            }
        }
        out.push(ability);
        if j2 < v.len() && v[j2] == ',' {
            proof {
                reveal_strlit(",");
                assert(","@ =~= seq![',']);
                assert(v@.subrange(i as int, j2 + 1) =~= v@.subrange(i as int, j2 as int) + seq![
                    v@[j2 as int],
                ]);
                assert(v@.subrange(i as int, j2 + 1) =~= passive_tokens(out@) + ","@);
                if hyp {
                    let c = (out@.len() - 1) as int;
                    if c + 1 == gl0.len() {
                        assert(j2 == end0);
                        assert(v@[j2 as int] == ']');
                        assert(false);
                    }
                    let suffix1 = gl0.subrange(c + 1, gl0.len() as int);
                    lemma_concat_prefix(v@, j2 as int, end0, ","@, passive_tokens(suffix1));
                    assert(v@.subrange(j2 + 1, end0) == passive_tokens(suffix1));
                }
            }
            j = j2 + 1;
            if j >= v.len() {
                proof {
                    if hyp {
                        assert(false);
                    }
                }
                return None;
            }
        } else {
            proof {
                if hyp {
                    let c = (out@.len() - 1) as int;
                    if c + 1 < gl0.len() {
                        let suffix1 = gl0.subrange(c + 1, gl0.len() as int);
                        lemma_concat_prefix(v@, j2 as int, end0, ","@, passive_tokens(suffix1));
                        assert(v@.subrange(j2 as int, j2 + 1) == ","@);
                        assert(v@.subrange(j2 as int, j2 + 1)[0] == v@[j2 as int]);
                        assert(false);
                    }
                    assert(out@ =~= gl0);
                    assert(j2 == end0);
                    assert forall|gl: Seq<PassiveCombatAbility>, end: int|
                        #[trigger] passive_region_at(v@, i as int, gl, end) implies gl == gl0 && end
                        == end0 by {
                        lemma_passive_tokens_no_bracket(gl);
                        lemma_passive_tokens_no_bracket(gl0);
                        if end < end0 {
                            assert(v@.subrange(i as int, end0)[end - i] == v@[end as int]);
                            assert(passive_tokens(gl0)[end - i] != ']');
                            assert(false);
                        }
                        if end0 < end {
                            assert(v@.subrange(i as int, end)[end0 - i] == v@[end0 as int]);
                            assert(passive_tokens(gl)[end0 - i] != ']');
                            assert(false);
                        }
                        assert(passive_tokens(gl) == v@.subrange(i as int, end));
                        assert(passive_tokens(gl) == passive_tokens(gl0));
                        lemma_passive_tokens_injective(gl, gl0);
                    }
                }
            }
            return Some((out, j2));
        }
    }
}

/// Parses a comma-separated active-ability list up to (not including) the
/// closing bracket: exactly the canonical token region is consumed, and a
/// canonical region always parses to its own list.
fn parse_active_list(v: &Vec<char>, i: usize) -> (res: Option<(Vec<ActiveAbilityType>, usize)>)
    ensures
        res matches Some((list, j)) ==> i <= j <= v@.len() && v@.subrange(i as int, j as int)
            == active_tokens(list@) && (j == v@.len() || v@[j as int] != ',') && (list@.len() == 0
            ==> j == i && i < v@.len() && v@[i as int] == ']'),
        forall|gl: Seq<ActiveAbilityType>, end: int|
            #[trigger] active_region_at(v@, i as int, gl, end) ==> (res matches Some((list, j)) && list@
                == gl && j as int == end),
{
    proof {
        reveal_strlit("ThrowJavelin");
        reveal_strlit(",");
        assert(","@ =~= seq![',']);
    }
    let ghost hyp = exists|gl: Seq<ActiveAbilityType>, end: int| active_region_at(v@, i as int, gl, end);
    let ghost (gl0, end0): (Seq<ActiveAbilityType>, int) = if hyp {
        choose|gl: Seq<ActiveAbilityType>, end: int| active_region_at(v@, i as int, gl, end)
    } else {
        (Seq::<ActiveAbilityType>::empty(), 0int)
    };
    let mut out: Vec<ActiveAbilityType> = Vec::new();
    if i < v.len() && v[i] == ']' {
        proof {
            assert(v@.subrange(i as int, i as int) =~= active_tokens(out@));
            if hyp {
                if gl0.len() > 0 {
                    assert(v@.subrange(i as int, end0)[0] == v@[i as int]);
                    assert(active_tokens(gl0)[0] == active_token(gl0[0])[0]);
                    assert(false);
                }
                assert(out@ =~= gl0);
                assert forall|gl: Seq<ActiveAbilityType>, end: int|
                        #[trigger] active_region_at(v@, i as int, gl, end) implies gl == gl0 && end
                        == end0 by {
                        lemma_active_tokens_no_bracket(gl);
                        lemma_active_tokens_no_bracket(gl0);
                        if end < end0 {
                            assert(v@.subrange(i as int, end0)[end - i] == v@[end as int]);
                            assert(active_tokens(gl0)[end - i] != ']');
                            assert(false);
                        }
                        if end0 < end {
                            assert(v@.subrange(i as int, end)[end0 - i] == v@[end0 as int]);
                            assert(active_tokens(gl)[end0 - i] != ']');
                            assert(false);
                        }
                        assert(active_tokens(gl) == v@.subrange(i as int, end));
                        assert(active_tokens(gl) == active_tokens(gl0));
                        lemma_active_tokens_injective(gl, gl0);
                    }
            }
        }
        return Some((out, i));
    }
    if i >= v.len() {
        proof {
            if hyp {
                assert(false);
            }
        }
        return None;
    }
    let mut j: usize = i;
    proof {
        assert(v@.subrange(i as int, i as int) =~= active_tokens(out@) + Seq::<char>::empty());
        if hyp {
            if gl0.len() == 0 {
                assert(v@.subrange(i as int, end0) =~= Seq::<char>::empty());
                assert(v@[i as int] == ']');
                assert(false);
            }
            assert(gl0.subrange(0, gl0.len() as int) =~= gl0);
        }
    }
    loop
        invariant
            i <= j <= v@.len(),
            v@.subrange(i as int, j as int) == active_tokens(out@) + (if out@.len() == 0 {
                Seq::<char>::empty()
            } else {
                ","@
            }),
            hyp == exists|gl: Seq<ActiveAbilityType>, end: int| active_region_at(v@, i as int, gl, end),
            hyp ==> active_region_at(v@, i as int, gl0, end0) && out@.len() < gl0.len() && out@ == gl0
                .subrange(0, out@.len() as int) && j as int <= end0 && v@.subrange(j as int, end0)
                == active_tokens(gl0.subrange(out@.len() as int, gl0.len() as int)),
        decreases v@.len() - j,
    {
        let ghost consumed = v@.subrange(i as int, j as int);
        proof {
            reveal_strlit("ThrowJavelin");
            reveal_strlit(",");
            assert(","@ =~= seq![',']);
            if hyp {
                let c = out@.len() as int;
                let suffix = gl0.subrange(c, gl0.len() as int);
                assert(suffix[0] == gl0[c]);
                assert(suffix.skip(1) =~= gl0.subrange(c + 1, gl0.len() as int));
                assert(end0 - j == active_tokens(suffix).len()) by {
                    assert(v@.subrange(j as int, end0).len() == end0 - j);
                }
                if c + 1 == gl0.len() {
                    assert(active_tokens(suffix) == active_token(gl0[c]));
                    assert(active_token(gl0[c]) + Seq::<char>::empty() =~= active_token(gl0[c]));
                    lemma_concat_prefix(
                        v@,
                        j as int,
                        end0,
                        active_token(gl0[c]),
                        Seq::<char>::empty(),
                    );
                } else {
                    assert(active_tokens(suffix) == active_token(gl0[c]) + ","@ + active_tokens(suffix.skip(1)));
                    lemma_concat_associative(active_token(gl0[c]), ","@, active_tokens(suffix.skip(1)));
                    lemma_concat_prefix(
                        v@,
                        j as int,
                        end0,
                        active_token(gl0[c]),
                        ","@ + active_tokens(suffix.skip(1)),
                    );
                }
                assert(v@.subrange(j as int, j + active_token(gl0[c]).len()) == active_token(gl0[c]));
            }
        }
        let (ability, j2) = if let Some(j2) = expect_lit(v, j, "ThrowJavelin") {
            (ActiveAbilityType::ThrowJavelin, j2)
        } else {
            proof {
                if hyp {
                    assert(false);
                }
            }
            return None;
        };
        proof {
            lemma_active_tokens_push(out@, ability);
            assert(v@.subrange(i as int, j2 as int) =~= consumed + v@.subrange(
                j as int,
                j2 as int,
            ));
            assert(v@.subrange(i as int, j2 as int) =~= active_tokens(out@.push(ability)));
            if hyp {
                let c = out@.len() as int;
                assert(ability == gl0[c]) by {
                    assert(gl0[c] is ThrowJavelin);
                }
                assert(j2 == j + active_token(gl0[c]).len());
                assert(out@.push(ability) =~= gl0.subrange(0, c + 1));
            }
        }
        out.push(ability);
        if j2 < v.len() && v[j2] == ',' {
            proof {
                reveal_strlit(",");
                assert(","@ =~= seq![',']);
                assert(v@.subrange(i as int, j2 + 1) =~= v@.subrange(i as int, j2 as int) + seq![
                    v@[j2 as int],
                ]);
                assert(v@.subrange(i as int, j2 + 1) =~= active_tokens(out@) + ","@);
                if hyp {
                    let c = (out@.len() - 1) as int;
                    if c + 1 == gl0.len() {
                        assert(j2 == end0);
                        assert(v@[j2 as int] == ']');
                        assert(false);
                    }
                    let suffix1 = gl0.subrange(c + 1, gl0.len() as int);
                    lemma_concat_prefix(v@, j2 as int, end0, ","@, active_tokens(suffix1));
                    assert(v@.subrange(j2 + 1, end0) == active_tokens(suffix1));
                }
            }
            j = j2 + 1;
            if j >= v.len() {
                proof {
                    if hyp {
                        assert(false);
                    }
                }
                return None;
            }
        } else {
            proof {
                if hyp {
                    let c = (out@.len() - 1) as int;
                    if c + 1 < gl0.len() {
                        let suffix1 = gl0.subrange(c + 1, gl0.len() as int);
                        lemma_concat_prefix(v@, j2 as int, end0, ","@, active_tokens(suffix1));
                        assert(v@.subrange(j2 as int, j2 + 1) == ","@);
                        assert(v@.subrange(j2 as int, j2 + 1)[0] == v@[j2 as int]);
                        assert(false);
                    }
                    assert(out@ =~= gl0);
                    assert(j2 == end0);
                    assert forall|gl: Seq<ActiveAbilityType>, end: int|
                        #[trigger] active_region_at(v@, i as int, gl, end) implies gl == gl0 && end
                        == end0 by {
                        lemma_active_tokens_no_bracket(gl);
                        lemma_active_tokens_no_bracket(gl0);
                        if end < end0 {
                            assert(v@.subrange(i as int, end0)[end - i] == v@[end as int]);
                            assert(active_tokens(gl0)[end - i] != ']');
                            assert(false);
                        }
                        if end0 < end {
                            assert(v@.subrange(i as int, end)[end0 - i] == v@[end0 as int]);
                            assert(active_tokens(gl)[end0 - i] != ']');
                            assert(false);
                        }
                        assert(active_tokens(gl) == v@.subrange(i as int, end));
                        assert(active_tokens(gl) == active_tokens(gl0));
                        lemma_active_tokens_injective(gl, gl0);
                    }
                }
            }
            return Some((out, j2));
        }
    }
}

fn fit_usize(n: u64) -> (res: Option<usize>)
    ensures
        res matches Some(m) ==> m == n,
        res is None ==> n > usize::MAX,
{
    if n <= usize::MAX as u64 {
        Some(n as usize)
    } else {
        None
    }
}

/// Parses the first four labelled number fields after the name.
#[verifier::rlimit(100)]
fn parse_stat_numbers_a(
    v: &Vec<char>,
    iq: usize,
    Ghost(hyp): Ghost<bool>,
    Ghost(st): Ghost<UnitStats>,
) -> (res: Option<(u64, u64, u64, u64, usize)>)
    requires
        iq <= v@.len(),
        hyp ==> v@.subrange(iq as int, v@.len() as int) == tail1(st),
    ensures
        res matches Some(t) ==> iq <= t.4 <= v@.len() && v@.subrange(iq as int, t.4 as int)
            == "\",max_action_points:"@ + dec_digits(t.0 as nat) + ",max_health_points:"@
            + dec_digits(t.1 as nat) + ",damage:"@ + dec_digits(t.2 as nat) + ",defense:"@
            + dec_digits(t.3 as nat),
        hyp ==> (res matches Some(t) && t.0 == st.max_action_points as u64 && t.1
            == st.max_health_points as u64 && t.2 == st.damage as u64 && t.3
            == st.defense as u64 && v@.subrange(t.4 as int, v@.len() as int) == tail5(st)),
{
    proof {
        reveal_strlit("\",max_action_points:");
        reveal_strlit(",max_health_points:");
        reveal_strlit(",damage:");
        reveal_strlit(",defense:");
        reveal_strlit(",attack_action_point_cost:");
        assert(v@.subrange(iq as int, iq as int) =~= Seq::<char>::empty());
    }
    proof {
        if hyp {
            assert(tail1(st) == "\",max_action_points:"@ + (dec_digits(st.max_action_points as nat) + tail2(st)));
            lemma_concat_associative(
                "\",max_action_points:"@,
                dec_digits(st.max_action_points as nat),
                tail2(st),
            );
            lemma_concat_prefix(
                v@,
                iq as int,
                v@.len() as int,
                "\",max_action_points:"@,
                dec_digits(st.max_action_points as nat) + tail2(st),
            );
        }
    }
    let p1 = match expect_lit(v, iq, "\",max_action_points:") {
        Some(i) => i,
        _ => {
            proof {
                if hyp {
                    assert(false);
                }
            }
            return None;
        },
    };
    proof {
        assert(v@.subrange(iq as int, p1 as int) =~= v@.subrange(
            iq as int,
            iq as int,
        ) + v@.subrange(iq as int, p1 as int));
        if hyp {
            assert(v@.subrange(p1 as int, v@.len() as int) == dec_digits(st.max_action_points as nat)
                + tail2(st));
            lemma_concat_prefix(
                v@,
                p1 as int,
                v@.len() as int,
                dec_digits(st.max_action_points as nat),
                tail2(st),
            );
            crate::decimal::lemma_dec_digits_all_digits(st.max_action_points as nat);
            assert(tail2(st).len() > 0);
            assert(v@[p1 + dec_digits(st.max_action_points as nat).len()] == tail2(st)[0]) by {
                assert(v@.subrange(
                    p1 + dec_digits(st.max_action_points as nat).len(),
                    v@.len() as int,
                )[0] == tail2(st)[0]);
            }
            assert(!is_dec_digit(tail2(st)[0]));
            assert(dec_digits((st.max_action_points as u64) as nat) == dec_digits(st.max_action_points as nat));
            assert(digits_at(
                v@,
                p1 as int,
                st.max_action_points as u64,
                p1 + dec_digits(st.max_action_points as nat).len(),
            ));
        }
    }
    let (n1, p2) = match parse_number(v, p1) {
        Some(p) => p,
        _ => {
            proof {
                if hyp {
                    assert(false);
                }
            }
            return None;
        },
    };
    proof {
        assert(v@.subrange(iq as int, p2 as int) =~= v@.subrange(
            iq as int,
            p1 as int,
        ) + v@.subrange(p1 as int, p2 as int));
        if hyp {
            lemma_digits_at_unique(
                v@,
                p1 as int,
                n1,
                p2 as int,
                st.max_action_points as u64,
                p1 + dec_digits(st.max_action_points as nat).len(),
            );
            assert(n1 == st.max_action_points as u64);
            assert(v@.subrange(p2 as int, v@.len() as int) == tail2(st));
        }
    }
    proof {
        if hyp {
            assert(tail2(st) == ",max_health_points:"@ + (dec_digits(st.max_health_points as nat) + tail3(st)));
            lemma_concat_associative(
                ",max_health_points:"@,
                dec_digits(st.max_health_points as nat),
                tail3(st),
            );
            lemma_concat_prefix(
                v@,
                p2 as int,
                v@.len() as int,
                ",max_health_points:"@,
                dec_digits(st.max_health_points as nat) + tail3(st),
            );
        }
    }
    let p3 = match expect_lit(v, p2, ",max_health_points:") {
        Some(i) => i,
        _ => {
            proof {
                if hyp {
                    assert(false);
                }
            }
            return None;
        },
    };
    proof {
        assert(v@.subrange(iq as int, p3 as int) =~= v@.subrange(
            iq as int,
            p2 as int,
        ) + v@.subrange(p2 as int, p3 as int));
        if hyp {
            assert(v@.subrange(p3 as int, v@.len() as int) == dec_digits(st.max_health_points as nat)
                + tail3(st));
            lemma_concat_prefix(
                v@,
                p3 as int,
                v@.len() as int,
                dec_digits(st.max_health_points as nat),
                tail3(st),
            );
            crate::decimal::lemma_dec_digits_all_digits(st.max_health_points as nat);
            assert(tail3(st).len() > 0);
            assert(v@[p3 + dec_digits(st.max_health_points as nat).len()] == tail3(st)[0]) by {
                assert(v@.subrange(
                    p3 + dec_digits(st.max_health_points as nat).len(),
                    v@.len() as int,
                )[0] == tail3(st)[0]);
            }
            assert(!is_dec_digit(tail3(st)[0]));
            assert(dec_digits((st.max_health_points as u64) as nat) == dec_digits(st.max_health_points as nat));
            assert(digits_at(
                v@,
                p3 as int,
                st.max_health_points as u64,
                p3 + dec_digits(st.max_health_points as nat).len(),
            ));
        }
    }
    let (n2, p4) = match parse_number(v, p3) {
        Some(p) => p,
        _ => {
            proof {
                if hyp {
                    assert(false);
                }
            }
            return None;
        },
    };
    proof {
        assert(v@.subrange(iq as int, p4 as int) =~= v@.subrange(
            iq as int,
            p3 as int,
        ) + v@.subrange(p3 as int, p4 as int));
        if hyp {
            lemma_digits_at_unique(
                v@,
                p3 as int,
                n2,
                p4 as int,
                st.max_health_points as u64,
                p3 + dec_digits(st.max_health_points as nat).len(),
            );
            assert(n2 == st.max_health_points as u64);
            assert(v@.subrange(p4 as int, v@.len() as int) == tail3(st));
        }
    }
    proof {
        if hyp {
            assert(tail3(st) == ",damage:"@ + (dec_digits(st.damage as nat) + tail4(st)));
            lemma_concat_associative(
                ",damage:"@,
                dec_digits(st.damage as nat),
                tail4(st),
            );
            lemma_concat_prefix(
                v@,
                p4 as int,
                v@.len() as int,
                ",damage:"@,
                dec_digits(st.damage as nat) + tail4(st),
            );
        }
    }
    let p5 = match expect_lit(v, p4, ",damage:") {
        Some(i) => i,
        _ => {
            proof {
                if hyp {
                    assert(false);
                }
            }
            return None;
        },
    };
    proof {
        assert(v@.subrange(iq as int, p5 as int) =~= v@.subrange(
            iq as int,
            p4 as int,
        ) + v@.subrange(p4 as int, p5 as int));
        if hyp {
            assert(v@.subrange(p5 as int, v@.len() as int) == dec_digits(st.damage as nat)
                + tail4(st));
            lemma_concat_prefix(
                v@,
                p5 as int,
                v@.len() as int,
                dec_digits(st.damage as nat),
                tail4(st),
            );
            crate::decimal::lemma_dec_digits_all_digits(st.damage as nat);
            assert(tail4(st).len() > 0);
            assert(v@[p5 + dec_digits(st.damage as nat).len()] == tail4(st)[0]) by {
                assert(v@.subrange(
                    p5 + dec_digits(st.damage as nat).len(),
                    v@.len() as int,
                )[0] == tail4(st)[0]);
            }
            assert(!is_dec_digit(tail4(st)[0]));
            assert(dec_digits((st.damage as u64) as nat) == dec_digits(st.damage as nat));
            assert(digits_at(
                v@,
                p5 as int,
                st.damage as u64,
                p5 + dec_digits(st.damage as nat).len(),
            ));
        }
    }
    let (n3, p6) = match parse_number(v, p5) {
        Some(p) => p,
        _ => {
            proof {
                if hyp {
                    assert(false);
                }
            }
            return None;
        },
    };
    proof {
        assert(v@.subrange(iq as int, p6 as int) =~= v@.subrange(
            iq as int,
            p5 as int,
        ) + v@.subrange(p5 as int, p6 as int));
        if hyp {
            lemma_digits_at_unique(
                v@,
                p5 as int,
                n3,
                p6 as int,
                st.damage as u64,
                p5 + dec_digits(st.damage as nat).len(),
            );
            assert(n3 == st.damage as u64);
            assert(v@.subrange(p6 as int, v@.len() as int) == tail4(st));
        }
    }
    proof {
        if hyp {
            assert(tail4(st) == ",defense:"@ + (dec_digits(st.defense as nat) + tail5(st)));
            lemma_concat_associative(
                ",defense:"@,
                dec_digits(st.defense as nat),
                tail5(st),
            );
            lemma_concat_prefix(
                v@,
                p6 as int,
                v@.len() as int,
                ",defense:"@,
                dec_digits(st.defense as nat) + tail5(st),
            );
        }
    }
    let p7 = match expect_lit(v, p6, ",defense:") {
        Some(i) => i,
        _ => {
            proof {
                if hyp {
                    assert(false);
                }
            }
            return None;
        },
    };
    proof {
        assert(v@.subrange(iq as int, p7 as int) =~= v@.subrange(
            iq as int,
            p6 as int,
        ) + v@.subrange(p6 as int, p7 as int));
        if hyp {
            assert(v@.subrange(p7 as int, v@.len() as int) == dec_digits(st.defense as nat)
                + tail5(st));
            lemma_concat_prefix(
                v@,
                p7 as int,
                v@.len() as int,
                dec_digits(st.defense as nat),
                tail5(st),
            );
            crate::decimal::lemma_dec_digits_all_digits(st.defense as nat);
            assert(tail5(st).len() > 0);
            assert(v@[p7 + dec_digits(st.defense as nat).len()] == tail5(st)[0]) by {
                assert(v@.subrange(
                    p7 + dec_digits(st.defense as nat).len(),
                    v@.len() as int,
                )[0] == tail5(st)[0]);
            }
            assert(!is_dec_digit(tail5(st)[0]));
            assert(dec_digits((st.defense as u64) as nat) == dec_digits(st.defense as nat));
            assert(digits_at(
                v@,
                p7 as int,
                st.defense as u64,
                p7 + dec_digits(st.defense as nat).len(),
            ));
        }
    }
    let (n4, p8) = match parse_number(v, p7) {
        Some(p) => p,
        _ => {
            proof {
                if hyp {
                    assert(false);
                }
            }
            return None;
        },
    };
    proof {
        assert(v@.subrange(iq as int, p8 as int) =~= v@.subrange(
            iq as int,
            p7 as int,
        ) + v@.subrange(p7 as int, p8 as int));
        if hyp {
            lemma_digits_at_unique(
                v@,
                p7 as int,
                n4,
                p8 as int,
                st.defense as u64,
                p7 + dec_digits(st.defense as nat).len(),
            );
            assert(n4 == st.defense as u64);
            assert(v@.subrange(p8 as int, v@.len() as int) == tail5(st));
        }
    }
    Some((n1, n2, n3, n4, p8))
}

/// Parses the last three labelled number fields before the ability lists.
#[verifier::rlimit(100)]
fn parse_stat_numbers_b(
    v: &Vec<char>,
    pp: usize,
    Ghost(hyp): Ghost<bool>,
    Ghost(st): Ghost<UnitStats>,
) -> (res: Option<(u64, u64, u64, usize)>)
    requires
        pp <= v@.len(),
        hyp ==> v@.subrange(pp as int, v@.len() as int) == tail5(st),
    ensures
        res matches Some(t) ==> pp <= t.3 <= v@.len() && v@.subrange(pp as int, t.3 as int)
            == ",attack_action_point_cost:"@ + dec_digits(t.0 as nat)
            + ",max_attacks_per_round:"@ + dec_digits(t.1 as nat) + ",range:"@ + dec_digits(
            t.2 as nat,
        ),
        hyp ==> (res matches Some(t) && t.0 == st.attack_action_point_cost as u64 && t.1
            == st.max_attacks_per_round as u64 && t.2 == st.range as u64 && v@.subrange(
            t.3 as int,
            v@.len() as int,
        ) == tail8(st)),
{
    proof {
        reveal_strlit(",attack_action_point_cost:");
        reveal_strlit(",max_attacks_per_round:");
        reveal_strlit(",range:");
        reveal_strlit(",passive_combat_abilities:[");
        assert(v@.subrange(pp as int, pp as int) =~= Seq::<char>::empty());
    }
    proof {
        if hyp {
            assert(tail5(st) == ",attack_action_point_cost:"@ + (dec_digits(st.attack_action_point_cost as nat) + tail6(st)));
            lemma_concat_associative(
                ",attack_action_point_cost:"@,
                dec_digits(st.attack_action_point_cost as nat),
                tail6(st),
            );
            lemma_concat_prefix(
                v@,
                pp as int,
                v@.len() as int,
                ",attack_action_point_cost:"@,
                dec_digits(st.attack_action_point_cost as nat) + tail6(st),
            );
        }
    }
    let q1 = match expect_lit(v, pp, ",attack_action_point_cost:") {
        Some(i) => i,
        _ => {
            proof {
                if hyp {
                    assert(false);
                }
            }
            return None;
        },
    };
    proof {
        assert(v@.subrange(pp as int, q1 as int) =~= v@.subrange(
            pp as int,
            pp as int,
        ) + v@.subrange(pp as int, q1 as int));
        if hyp {
            assert(v@.subrange(q1 as int, v@.len() as int) == dec_digits(st.attack_action_point_cost as nat)
                + tail6(st));
            lemma_concat_prefix(
                v@,
                q1 as int,
                v@.len() as int,
                dec_digits(st.attack_action_point_cost as nat),
                tail6(st),
            );
            crate::decimal::lemma_dec_digits_all_digits(st.attack_action_point_cost as nat);
            assert(tail6(st).len() > 0);
            assert(v@[q1 + dec_digits(st.attack_action_point_cost as nat).len()] == tail6(st)[0]) by {
                assert(v@.subrange(
                    q1 + dec_digits(st.attack_action_point_cost as nat).len(),
                    v@.len() as int,
                )[0] == tail6(st)[0]);
            }
            assert(!is_dec_digit(tail6(st)[0]));
            assert(dec_digits((st.attack_action_point_cost as u64) as nat) == dec_digits(st.attack_action_point_cost as nat));
            assert(digits_at(
                v@,
                q1 as int,
                st.attack_action_point_cost as u64,
                q1 + dec_digits(st.attack_action_point_cost as nat).len(),
            ));
        }
    }
    let (n5, q2) = match parse_number(v, q1) {
        Some(p) => p,
        _ => {
            proof {
                if hyp {
                    assert(false);
                }
            }
            return None;
        },
    };
    proof {
        assert(v@.subrange(pp as int, q2 as int) =~= v@.subrange(
            pp as int,
            q1 as int,
        ) + v@.subrange(q1 as int, q2 as int));
        if hyp {
            lemma_digits_at_unique(
                v@,
                q1 as int,
                n5,
                q2 as int,
                st.attack_action_point_cost as u64,
                q1 + dec_digits(st.attack_action_point_cost as nat).len(),
            );
            assert(n5 == st.attack_action_point_cost as u64);
            assert(v@.subrange(q2 as int, v@.len() as int) == tail6(st));
        }
    }
    proof {
        if hyp {
            assert(tail6(st) == ",max_attacks_per_round:"@ + (dec_digits(st.max_attacks_per_round as nat) + tail7(st)));
            lemma_concat_associative(
                ",max_attacks_per_round:"@,
                dec_digits(st.max_attacks_per_round as nat),
                tail7(st),
            );
            lemma_concat_prefix(
                v@,
                q2 as int,
                v@.len() as int,
                ",max_attacks_per_round:"@,
                dec_digits(st.max_attacks_per_round as nat) + tail7(st),
            );
        }
    }
    let q3 = match expect_lit(v, q2, ",max_attacks_per_round:") {
        Some(i) => i,
        _ => {
            proof {
                if hyp {
                    assert(false);
                }
            }
            return None;
        },
    };
    proof {
        assert(v@.subrange(pp as int, q3 as int) =~= v@.subrange(
            pp as int,
            q2 as int,
        ) + v@.subrange(q2 as int, q3 as int));
        if hyp {
            assert(v@.subrange(q3 as int, v@.len() as int) == dec_digits(st.max_attacks_per_round as nat)
                + tail7(st));
            lemma_concat_prefix(
                v@,
                q3 as int,
                v@.len() as int,
                dec_digits(st.max_attacks_per_round as nat),
                tail7(st),
            );
            crate::decimal::lemma_dec_digits_all_digits(st.max_attacks_per_round as nat);
            assert(tail7(st).len() > 0);
            assert(v@[q3 + dec_digits(st.max_attacks_per_round as nat).len()] == tail7(st)[0]) by {
                assert(v@.subrange(
                    q3 + dec_digits(st.max_attacks_per_round as nat).len(),
                    v@.len() as int,
                )[0] == tail7(st)[0]);
            }
            assert(!is_dec_digit(tail7(st)[0]));
            assert(dec_digits((st.max_attacks_per_round as u64) as nat) == dec_digits(st.max_attacks_per_round as nat));
            assert(digits_at(
                v@,
                q3 as int,
                st.max_attacks_per_round as u64,
                q3 + dec_digits(st.max_attacks_per_round as nat).len(),
            ));
        }
    }
    let (n6, q4) = match parse_number(v, q3) {
        Some(p) => p,
        _ => {
            proof {
                if hyp {
                    assert(false);
                }
            }
            return None;
        },
    };
    proof {
        assert(v@.subrange(pp as int, q4 as int) =~= v@.subrange(
            pp as int,
            q3 as int,
        ) + v@.subrange(q3 as int, q4 as int));
        if hyp {
            lemma_digits_at_unique(
                v@,
                q3 as int,
                n6,
                q4 as int,
                st.max_attacks_per_round as u64,
                q3 + dec_digits(st.max_attacks_per_round as nat).len(),
            );
            assert(n6 == st.max_attacks_per_round as u64);
            assert(v@.subrange(q4 as int, v@.len() as int) == tail7(st));
        }
    }
    proof {
        if hyp {
            assert(tail7(st) == ",range:"@ + (dec_digits(st.range as nat) + tail8(st)));
            lemma_concat_associative(
                ",range:"@,
                dec_digits(st.range as nat),
                tail8(st),
            );
            lemma_concat_prefix(
                v@,
                q4 as int,
                v@.len() as int,
                ",range:"@,
                dec_digits(st.range as nat) + tail8(st),
            );
        }
    }
    let q5 = match expect_lit(v, q4, ",range:") {
        Some(i) => i,
        _ => {
            proof {
                if hyp {
                    assert(false);
                }
            }
            return None;
        },
    };
    proof {
        assert(v@.subrange(pp as int, q5 as int) =~= v@.subrange(
            pp as int,
            q4 as int,
        ) + v@.subrange(q4 as int, q5 as int));
        if hyp {
            assert(v@.subrange(q5 as int, v@.len() as int) == dec_digits(st.range as nat)
                + tail8(st));
            lemma_concat_prefix(
                v@,
                q5 as int,
                v@.len() as int,
                dec_digits(st.range as nat),
                tail8(st),
            );
            crate::decimal::lemma_dec_digits_all_digits(st.range as nat);
            assert(tail8(st).len() > 0);
            assert(v@[q5 + dec_digits(st.range as nat).len()] == tail8(st)[0]) by {
                assert(v@.subrange(
                    q5 + dec_digits(st.range as nat).len(),
                    v@.len() as int,
                )[0] == tail8(st)[0]);
            }
            assert(!is_dec_digit(tail8(st)[0]));
            assert(dec_digits((st.range as u64) as nat) == dec_digits(st.range as nat));
            assert(digits_at(
                v@,
                q5 as int,
                st.range as u64,
                q5 + dec_digits(st.range as nat).len(),
            ));
        }
    }
    let (n7, q6) = match parse_number(v, q5) {
        Some(p) => p,
        _ => {
            proof {
                if hyp {
                    assert(false);
                }
            }
            return None;
        },
    };
    proof {
        assert(v@.subrange(pp as int, q6 as int) =~= v@.subrange(
            pp as int,
            q5 as int,
        ) + v@.subrange(q5 as int, q6 as int));
        if hyp {
            lemma_digits_at_unique(
                v@,
                q5 as int,
                n7,
                q6 as int,
                st.range as u64,
                q5 + dec_digits(st.range as nat).len(),
            );
            assert(n7 == st.range as u64);
            assert(v@.subrange(q6 as int, v@.len() as int) == tail8(st));
        }
    }
    Some((n5, n6, n7, q6))
}

/// Parses the seven labelled number fields after the name: exactly the
/// canonical field text is consumed, and under the canonical-text
/// hypothesis every field parses to the record's own value.
#[verifier::rlimit(100)]
fn parse_stat_numbers(
    v: &Vec<char>,
    iq: usize,
    Ghost(hyp): Ghost<bool>,
    Ghost(st): Ghost<UnitStats>,
) -> (res: Option<(u64, u64, u64, u64, u64, u64, u64, usize)>)
    requires
        iq <= v@.len(),
        hyp ==> v@.subrange(iq as int, v@.len() as int) == tail1(st),
    ensures
        res matches Some(t) ==> iq <= t.7 <= v@.len() && v@.subrange(iq as int, t.7 as int)
            == "\",max_action_points:"@ + dec_digits(t.0 as nat) + ",max_health_points:"@
            + dec_digits(t.1 as nat) + ",damage:"@ + dec_digits(t.2 as nat) + ",defense:"@
            + dec_digits(t.3 as nat) + ",attack_action_point_cost:"@ + dec_digits(t.4 as nat)
            + ",max_attacks_per_round:"@ + dec_digits(t.5 as nat) + ",range:"@ + dec_digits(
            t.6 as nat,
        ),
        hyp ==> (res matches Some(t) && t.0 == st.max_action_points as u64 && t.1
            == st.max_health_points as u64 && t.2 == st.damage as u64 && t.3
            == st.defense as u64 && t.4 == st.attack_action_point_cost as u64 && t.5
            == st.max_attacks_per_round as u64 && t.6 == st.range as u64 && v@.subrange(
            t.7 as int,
            v@.len() as int,
        ) == tail8(st)),
{
    let (n1, n2, n3, n4, mid) = match parse_stat_numbers_a(v, iq, Ghost(hyp), Ghost(st)) {
        Some(t) => t,
        _ => {
            proof {
                if hyp {
                    assert(false);
                }
            }
            return None;
        },
    };
    let (n5, n6, n7, endp) = match parse_stat_numbers_b(v, mid, Ghost(hyp), Ghost(st)) {
        Some(t) => t,
        _ => {
            proof {
                if hyp {
                    assert(false);
                }
            }
            return None;
        },
    };
    proof {
        assert(v@.subrange(iq as int, endp as int) =~= v@.subrange(iq as int, mid as int)
            + v@.subrange(mid as int, endp as int));
        assert(v@.subrange(iq as int, endp as int) =~= "\",max_action_points:"@ + dec_digits(
            n1 as nat,
        ) + ",max_health_points:"@ + dec_digits(n2 as nat) + ",damage:"@ + dec_digits(n3 as nat)
            + ",defense:"@ + dec_digits(n4 as nat) + ",attack_action_point_cost:"@ + dec_digits(
            n5 as nat,
        ) + ",max_attacks_per_round:"@ + dec_digits(n6 as nat) + ",range:"@ + dec_digits(
            n7 as nat,
        ));
    }
    Some((n1, n2, n3, n4, n5, n6, n7, endp))
}

/// Reads a stats record back from its canonical RON text: a parse succeeds
/// only on exactly the canonical serialization of the record it returns.
#[verifier::rlimit(100)]
pub fn from_ron_str(s: &str) -> (res: Option<UnitStats>)
    ensures
        res matches Some(st) ==> s@ == ron_of(st) && name_ok(st.name@),
        (exists|st: UnitStats| name_ok(st.name@) && s@ == ron_of(st)) ==> res is Some,
{
    let ghost hyp = exists|st: UnitStats| name_ok(st.name@) && s@ == ron_of(st);
    let ghost st: UnitStats = if hyp {
        choose|st: UnitStats| name_ok(st.name@) && s@ == ron_of(st)
    } else {
        arbitrary()
    };
    proof {
        reveal_strlit("(name:\"");
        reveal_strlit("\",max_action_points:");
        reveal_strlit(",max_health_points:");
        reveal_strlit(",damage:");
        reveal_strlit(",defense:");
        reveal_strlit(",attack_action_point_cost:");
        reveal_strlit(",max_attacks_per_round:");
        reveal_strlit(",range:");
        reveal_strlit(",passive_combat_abilities:[");
        reveal_strlit("],active_abilities:[");
        reveal_strlit("])");
    }
    let v = crate::strutil::str_to_chars(s);
    proof {
        if hyp {
            lemma_ron_shape(st);
            assert(v@ == "(name:\""@ + (st.name@ + tail1(st)));
            assert(v@.subrange(0, v@.len() as int) =~= v@);
            lemma_concat_prefix(
                v@,
                0,
                v@.len() as int,
                "(name:\""@,
                st.name@ + tail1(st),
            );
        }
    }
    let i0 = match expect_lit(&v, 0, "(name:\"") {
        Some(i) => i,
        _ => {
            proof {
                if hyp {
                    assert(false);
                }
            }
            return None;
        },
    };
    proof {
        if hyp {
            assert(v@.subrange(i0 as int, v@.len() as int) == st.name@ + tail1(st));
            lemma_concat_prefix(v@, i0 as int, v@.len() as int, st.name@, tail1(st));
            assert(tail1(st) == "\",max_action_points:"@ + (dec_digits(
                st.max_action_points as nat,
            ) + tail2(st)));
            assert(tail1(st).len() > 0);
            assert(v@[i0 + st.name@.len()] == tail1(st)[0]) by {
                assert(v@.subrange(i0 + st.name@.len(), v@.len() as int)[0] == tail1(st)[0]);
            }
            assert(tail1(st)[0] == '"');
            assert forall|m: int|
                i0 <= m < i0 + st.name@.len() implies #[trigger] v@[m] != '"' && v@[m]
                != '\\' by {
                assert(v@.subrange(i0 as int, i0 + st.name@.len())[m - i0] == v@[m]);
                assert(st.name@[m - i0] != '"' && st.name@[m - i0] != '\\');
            }
        }
    }
    let iq = match scan_name(&v, i0) {
        Some(j) => j,
        _ => {
            proof {
                if hyp {
                    assert(v@[i0 + st.name@.len()] == '"');
                    assert(false);
                }
            }
            return None;
        },
    };
    proof {
        if hyp {
            assert(iq as int == i0 + st.name@.len()) by {
                if (iq as int) < i0 + st.name@.len() {
                    assert(v@[iq as int] != '"');
                }
                if (iq as int) > i0 + st.name@.len() {
                    assert(name_ok(v@.subrange(i0 as int, iq as int)));
                    assert(v@.subrange(i0 as int, iq as int)[i0 + st.name@.len() - i0] == v@[i0
                        + st.name@.len()]);
                }
            }
            assert(v@.subrange(iq as int, v@.len() as int) == tail1(st));
        }
    }
    let ghost name_view = v@.subrange(i0 as int, iq as int);
    let mut name_chars: Vec<char> = Vec::new();
    let mut k: usize = i0;
    while k < iq
        invariant
            i0 <= k <= iq <= v@.len(),
            name_chars@ == v@.subrange(i0 as int, k as int),
        decreases iq - k,
    {
        name_chars.push(v[k]);
        proof {
            assert(v@.subrange(i0 as int, k + 1) =~= v@.subrange(i0 as int, k as int).push(
                v@[k as int],
            ));
        }
        k = k + 1;
    }
    let name = crate::strutil::chars_to_string(&name_chars);
    let (map_v, mhp_v, dmg_v, def_v, cost_v, mapr_v, rng_v, i14) = match parse_stat_numbers(
        &v,
        iq,
        Ghost(hyp),
        Ghost(st),
    ) {
        Some(t) => t,
        _ => {
            proof {
                if hyp {
                    assert(false);
                }
            }
            return None;
        },
    };
    proof {
        if hyp {
            assert(tail8(st) == ",passive_combat_abilities:["@ + (passive_tokens(
                st.passive_combat_abilities@,
            ) + tail9(st)));
            lemma_concat_associative(
                ",passive_combat_abilities:["@,
                passive_tokens(st.passive_combat_abilities@),
                tail9(st),
            );
            lemma_concat_prefix(
                v@,
                i14 as int,
                v@.len() as int,
                ",passive_combat_abilities:["@,
                passive_tokens(st.passive_combat_abilities@) + tail9(st),
            );
        }
    }
    let i15 = match expect_lit(&v, i14, ",passive_combat_abilities:[") {
        Some(i) => i,
        _ => {
            proof {
                if hyp {
                    assert(false);
                }
            }
            return None;
        },
    };
    proof {
        if hyp {
            assert(v@.subrange(i15 as int, v@.len() as int) == passive_tokens(
                st.passive_combat_abilities@,
            ) + tail9(st));
            lemma_concat_prefix(
                v@,
                i15 as int,
                v@.len() as int,
                passive_tokens(st.passive_combat_abilities@),
                tail9(st),
            );
            assert(tail9(st) == "],active_abilities:["@ + (active_tokens(st.active_abilities@)
                + "])"@));
            assert(tail9(st).len() > 0);
            let endp = i15 + passive_tokens(st.passive_combat_abilities@).len();
            assert(v@[endp] == tail9(st)[0]) by {
                assert(v@.subrange(endp, v@.len() as int)[0] == tail9(st)[0]);
            }
            assert(tail9(st)[0] == ']');
            assert(passive_region_at(v@, i15 as int, st.passive_combat_abilities@, endp));
        }
    }
    let (passive, i16) = match parse_passive_list(&v, i15) {
        Some(p) => p,
        _ => {
            proof {
                if hyp {
                    assert(false);
                }
            }
            return None;
        },
    };
    proof {
        if hyp {
            assert(passive@ == st.passive_combat_abilities@ && i16 as int == i15 + passive_tokens(
                st.passive_combat_abilities@,
            ).len());
            assert(v@.subrange(i16 as int, v@.len() as int) == tail9(st));
            assert(tail9(st) == "],active_abilities:["@ + (active_tokens(st.active_abilities@)
                + "])"@));
            lemma_concat_associative(
                "],active_abilities:["@,
                active_tokens(st.active_abilities@),
                "])"@,
            );
            lemma_concat_prefix(
                v@,
                i16 as int,
                v@.len() as int,
                "],active_abilities:["@,
                active_tokens(st.active_abilities@) + "])"@,
            );
        }
    }
    let i17 = match expect_lit(&v, i16, "],active_abilities:[") {
        Some(i) => i,
        _ => {
            proof {
                if hyp {
                    assert(false);
                }
            }
            return None;
        },
    };
    proof {
        if hyp {
            assert(v@.subrange(i17 as int, v@.len() as int) == active_tokens(st.active_abilities@)
                + "])"@);
            lemma_concat_prefix(
                v@,
                i17 as int,
                v@.len() as int,
                active_tokens(st.active_abilities@),
                "])"@,
            );
            let enda = i17 + active_tokens(st.active_abilities@).len();
            assert(v@[enda] == "])"@[0]) by {
                assert(v@.subrange(enda, v@.len() as int)[0] == "])"@[0]);
            }
            assert("])"@[0] == ']');
            assert(active_region_at(v@, i17 as int, st.active_abilities@, enda));
        }
    }
    let (active, i18) = match parse_active_list(&v, i17) {
        Some(p) => p,
        _ => {
            proof {
                if hyp {
                    assert(false);
                }
            }
            return None;
        },
    };
    proof {
        if hyp {
            assert(active@ == st.active_abilities@ && i18 as int == i17 + active_tokens(
                st.active_abilities@,
            ).len());
            assert(v@.subrange(i18 as int, v@.len() as int) == "])"@);
            assert("])"@ + Seq::<char>::empty() =~= "])"@);
            lemma_concat_prefix(v@, i18 as int, v@.len() as int, "])"@, Seq::<char>::empty());
        }
    }
    let i19 = match expect_lit(&v, i18, "])") {
        Some(i) => i,
        _ => {
            proof {
                if hyp {
                    assert(false);
                }
            }
            return None;
        },
    };
    if i19 != v.len() {
        proof {
            if hyp {
                assert(i19 as int == i18 + 2);
                assert(false);
            }
        }
        return None;
    }
    let max_action_points = match fit_usize(map_v) {
        Some(m) => m,
        _ => {
            proof {
                if hyp {
                    assert(false);
                }
            }
            return None;
        },
    };
    let max_health_points = match fit_usize(mhp_v) {
        Some(m) => m,
        _ => {
            proof {
                if hyp {
                    assert(false);
                }
            }
            return None;
        },
    };
    let damage = match fit_usize(dmg_v) {
        Some(m) => m,
        _ => {
            proof {
                if hyp {
                    assert(false);
                }
            }
            return None;
        },
    };
    let defense = match fit_usize(def_v) {
        Some(m) => m,
        _ => {
            proof {
                if hyp {
                    assert(false);
                }
            }
            return None;
        },
    };
    let attack_action_point_cost = match fit_usize(cost_v) {
        Some(m) => m,
        _ => {
            proof {
                if hyp {
                    assert(false);
                }
            }
            return None;
        },
    };
    let max_attacks_per_round = match fit_usize(mapr_v) {
        Some(m) => m,
        _ => {
            proof {
                if hyp {
                    assert(false);
                }
            }
            return None;
        },
    };
    let range: u32 = if rng_v <= u32::MAX as u64 {
        rng_v as u32
    } else {
        proof {
            if hyp {
                assert(rng_v == st.range as u64);
                assert(false);
            }
        }
        return None;
    };
    let st2 = UnitStats {
        name,
        max_action_points,
        max_health_points,
        damage,
        defense,
        attack_action_point_cost,
        max_attacks_per_round,
        range,
        passive_combat_abilities: passive,
        active_abilities: active,
    };
    proof {
        assert(v@ =~= v@.subrange(0, i0 as int) + v@.subrange(i0 as int, iq as int) + v@.subrange(
            iq as int,
            i14 as int,
        ) + v@.subrange(i14 as int, i15 as int) + v@.subrange(i15 as int, i16 as int)
            + v@.subrange(i16 as int, i17 as int) + v@.subrange(i17 as int, i18 as int)
            + v@.subrange(i18 as int, i19 as int));
        assert(s@ =~= ron_of(st2));
    }
    Some(st2)
}

/// Equal concatenations under a common prefix have equal tails.
proof fn lemma_cancel_prefix(p: Seq<char>, x: Seq<char>, y: Seq<char>)
    requires
        p + x == p + y,
    ensures
        x == y,
{
    assert((p + x).len() == p.len() + x.len());
    assert((p + y).len() == p.len() + y.len());
    assert(x.len() == y.len());
    assert forall|k: int| 0 <= k < x.len() implies x[k] == y[k] by {
        assert((p + x)[p.len() + k] == x[k]);
        assert((p + y)[p.len() + k] == y[k]);
    }
    assert(x =~= y);
}

/// Two equal texts that each start with a delimiter-free run up to the
/// first delimiter split identically.
proof fn lemma_scan_split(
    x1: Seq<char>,
    y1: Seq<char>,
    x2: Seq<char>,
    y2: Seq<char>,
    p: spec_fn(char) -> bool,
)
    requires
        x1 + y1 == x2 + y2,
        forall|k: int| 0 <= k < x1.len() ==> p(#[trigger] x1[k]),
        forall|k: int| 0 <= k < x2.len() ==> p(#[trigger] x2[k]),
        y1.len() > 0 && !p(y1[0]),
        y2.len() > 0 && !p(y2[0]),
    ensures
        x1 == x2,
        y1 == y2,
{
    if x1.len() < x2.len() {
        assert((x1 + y1)[x1.len() as int] == y1[0]);
        assert((x2 + y2)[x1.len() as int] == x2[x1.len() as int]);
        assert(p(x2[x1.len() as int]));
        assert(false);
    }
    if x2.len() < x1.len() {
        assert((x2 + y2)[x2.len() as int] == y2[0]);
        assert((x1 + y1)[x2.len() as int] == x1[x2.len() as int]);
        assert(p(x1[x2.len() as int]));
        assert(false);
    }
    assert forall|k: int| 0 <= k < x1.len() implies x1[k] == x2[k] by {
        assert((x1 + y1)[k] == x1[k]);
        assert((x2 + y2)[k] == x2[k]);
    }
    assert(x1 =~= x2);
    lemma_cancel_prefix(x1, y1, y2);
}

/// No character of a passive-ability token list is a closing bracket.
proof fn lemma_passive_tokens_no_bracket(s: Seq<PassiveCombatAbility>)
    ensures
        forall|k: int| 0 <= k < passive_tokens(s).len() ==> #[trigger] passive_tokens(s)[k] != ']',
    decreases s.len(),
{
    reveal_strlit("ArmorBreak");
    reveal_strlit("HitAndRun");
    reveal_strlit(",");
    if s.len() == 0 {
    } else if s.len() == 1 {
        assert(forall|k: int|
            0 <= k < passive_token(s[0]).len() ==> #[trigger] passive_token(s[0])[k] != ']');
    } else {
        lemma_passive_tokens_no_bracket(s.skip(1));
        let t = passive_token(s[0]);
        let rest = passive_tokens(s.skip(1));
        assert(forall|k: int| 0 <= k < t.len() ==> #[trigger] t[k] != ']');
        assert forall|k: int|
            0 <= k < passive_tokens(s).len() implies #[trigger] passive_tokens(s)[k] != ']' by {
            if k < t.len() {
                assert(passive_tokens(s)[k] == t[k]);
            } else if k == t.len() {
                assert(passive_tokens(s)[k] == ',');
            } else {
                assert(passive_tokens(s)[k] == rest[k - t.len() - 1]);
            }
        }
    }
}

/// No character of an active-ability token list is a closing bracket.
proof fn lemma_active_tokens_no_bracket(s: Seq<ActiveAbilityType>)
    ensures
        forall|k: int| 0 <= k < active_tokens(s).len() ==> #[trigger] active_tokens(s)[k] != ']',
    decreases s.len(),
{
    reveal_strlit("ThrowJavelin");
    reveal_strlit(",");
    if s.len() == 0 {
    } else if s.len() == 1 {
    } else {
        lemma_active_tokens_no_bracket(s.skip(1));
        let t = active_token(s[0]);
        let rest = active_tokens(s.skip(1));
        assert forall|k: int|
            0 <= k < active_tokens(s).len() implies #[trigger] active_tokens(s)[k] != ']' by {
            if k < t.len() {
                assert(active_tokens(s)[k] == t[k]);
            } else if k == t.len() {
                assert(active_tokens(s)[k] == ',');
            } else {
                assert(active_tokens(s)[k] == rest[k - t.len() - 1]);
            }
        }
    }
}

/// Equal passive token lists come from equal ability lists.
proof fn lemma_passive_tokens_injective(s1: Seq<PassiveCombatAbility>, s2: Seq<PassiveCombatAbility>)
    requires
        passive_tokens(s1) == passive_tokens(s2),
    ensures
        s1 == s2,
    decreases s1.len(),
{
    reveal_strlit("ArmorBreak");
    reveal_strlit("HitAndRun");
    reveal_strlit(",");
    if s1.len() == 0 {
        if s2.len() > 0 {
            assert(passive_tokens(s2).len() > 0) by {
                if s2.len() == 1 {
                } else {
                    assert(passive_tokens(s2)[0] == passive_token(s2[0])[0]);
                }
            }
            assert(false);
        }
        assert(s1 =~= s2);
    } else if s2.len() == 0 {
        assert(passive_tokens(s1).len() > 0) by {
            if s1.len() == 1 {
            } else {
                assert(passive_tokens(s1)[0] == passive_token(s1[0])[0]);
            }
        }
        assert(false);
    } else {
        assert(passive_tokens(s1)[0] == passive_token(s1[0])[0]);
        assert(passive_tokens(s2)[0] == passive_token(s2[0])[0]);
        assert(s1[0] == s2[0]) by {
            if s1[0] != s2[0] {
                assert(passive_token(s1[0])[0] != passive_token(s2[0])[0]);
            }
        }
        let t = passive_token(s1[0]);
        if s1.len() == 1 && s2.len() == 1 {
            assert(s1 =~= s2);
        } else if s1.len() == 1 && s2.len() > 1 {
            assert(passive_tokens(s2).len() > t.len());
            assert(false);
        } else if s1.len() > 1 && s2.len() == 1 {
            assert(passive_tokens(s1).len() > t.len());
            assert(false);
        } else {
            assert(passive_tokens(s1) == t + ","@ + passive_tokens(s1.skip(1)));
            assert(passive_tokens(s2) == t + ","@ + passive_tokens(s2.skip(1)));
            lemma_cancel_prefix(
                t + ","@,
                passive_tokens(s1.skip(1)),
                passive_tokens(s2.skip(1)),
            );
            lemma_passive_tokens_injective(s1.skip(1), s2.skip(1));
            assert(s1.skip(1).len() == s2.skip(1).len());
            assert(s1.len() == s2.len());
            assert forall|k: int| 0 <= k < s1.len() implies s1[k] == s2[k] by {
                if k > 0 {
                    assert(s1.skip(1)[k - 1] == s1[k]);
                    assert(s2.skip(1)[k - 1] == s2[k]);
                }
            }
            assert(s1 =~= s2);
        }
    }
}

/// Equal active token lists come from equal ability lists.
proof fn lemma_active_tokens_injective(s1: Seq<ActiveAbilityType>, s2: Seq<ActiveAbilityType>)
    requires
        active_tokens(s1) == active_tokens(s2),
    ensures
        s1 == s2,
    decreases s1.len(),
{
    reveal_strlit("ThrowJavelin");
    reveal_strlit(",");
    if s1.len() == 0 {
        if s2.len() > 0 {
            assert(active_tokens(s2).len() > 0) by {
                if s2.len() == 1 {
                } else {
                    assert(active_tokens(s2)[0] == active_token(s2[0])[0]);
                }
            }
            assert(false);
        }
        assert(s1 =~= s2);
    } else if s2.len() == 0 {
        assert(active_tokens(s1).len() > 0) by {
            if s1.len() == 1 {
            } else {
                assert(active_tokens(s1)[0] == active_token(s1[0])[0]);
            }
        }
        assert(false);
    } else {
        assert(s1[0] == s2[0]);
        let t = active_token(s1[0]);
        if s1.len() == 1 && s2.len() == 1 {
            assert(s1 =~= s2);
        } else if s1.len() == 1 && s2.len() > 1 {
            assert(active_tokens(s2).len() > t.len());
            assert(false);
        } else if s1.len() > 1 && s2.len() == 1 {
            assert(active_tokens(s1).len() > t.len());
            assert(false);
        } else {
            lemma_cancel_prefix(t + ","@, active_tokens(s1.skip(1)), active_tokens(s2.skip(1)));
            lemma_active_tokens_injective(s1.skip(1), s2.skip(1));
            assert(s1.skip(1).len() == s2.skip(1).len());
            assert(s1.len() == s2.len());
            assert forall|k: int| 0 <= k < s1.len() implies s1[k] == s2[k] by {
                if k > 0 {
                    assert(s1.skip(1)[k - 1] == s1[k]);
                    assert(s2.skip(1)[k - 1] == s2[k]);
                }
            }
            assert(s1 =~= s2);
        }
    }
}

/// Splits one number field off the front of two equal texts: the canonical
/// digits and the remainders agree.
proof fn lemma_split_number(n1: nat, r1: Seq<char>, n2: nat, r2: Seq<char>)
    requires
        dec_digits(n1) + r1 == dec_digits(n2) + r2,
        r1.len() > 0 && !is_dec_digit(r1[0]),
        r2.len() > 0 && !is_dec_digit(r2[0]),
    ensures
        n1 == n2,
        r1 == r2,
{
    crate::decimal::lemma_dec_digits_all_digits(n1);
    crate::decimal::lemma_dec_digits_all_digits(n2);
    lemma_scan_split(dec_digits(n1), r1, dec_digits(n2), r2, |c: char| is_dec_digit(c));
    lemma_dec_value_of_digits(n1);
    lemma_dec_value_of_digits(n2);
}

/// The canonical text from field 1 on.
pub open spec fn tail1(st: UnitStats) -> Seq<char> {
    "\",max_action_points:"@ + (dec_digits(st.max_action_points as nat) + tail2(st))
}

/// The canonical text from field 2 on.
pub open spec fn tail2(st: UnitStats) -> Seq<char> {
    ",max_health_points:"@ + (dec_digits(st.max_health_points as nat) + tail3(st))
}

/// The canonical text from field 3 on.
pub open spec fn tail3(st: UnitStats) -> Seq<char> {
    ",damage:"@ + (dec_digits(st.damage as nat) + tail4(st))
}

/// The canonical text from field 4 on.
pub open spec fn tail4(st: UnitStats) -> Seq<char> {
    ",defense:"@ + (dec_digits(st.defense as nat) + tail5(st))
}

/// The canonical text from field 5 on.
pub open spec fn tail5(st: UnitStats) -> Seq<char> {
    ",attack_action_point_cost:"@ + (dec_digits(st.attack_action_point_cost as nat) + tail6(st))
}

/// The canonical text from field 6 on.
pub open spec fn tail6(st: UnitStats) -> Seq<char> {
    ",max_attacks_per_round:"@ + (dec_digits(st.max_attacks_per_round as nat) + tail7(st))
}

/// The canonical text from field 7 on.
pub open spec fn tail7(st: UnitStats) -> Seq<char> {
    ",range:"@ + (dec_digits(st.range as nat) + tail8(st))
}

/// The canonical text from field 8 on.
pub open spec fn tail8(st: UnitStats) -> Seq<char> {
    ",passive_combat_abilities:["@ + (passive_tokens(st.passive_combat_abilities@) + tail9(st))
}

/// The canonical text from field 9 on.
pub open spec fn tail9(st: UnitStats) -> Seq<char> {
    "],active_abilities:["@ + (active_tokens(st.active_abilities@) + "])"@)
}

/// The canonical text splits into the name and the field chain.
#[verifier::rlimit(100)]
proof fn lemma_ron_shape(st: UnitStats)
    ensures
        ron_of(st) == "(name:\""@ + (st.name@ + tail1(st)),
{
    let d1 = dec_digits(st.max_action_points as nat);
    let d2 = dec_digits(st.max_health_points as nat);
    let d3 = dec_digits(st.damage as nat);
    let d4 = dec_digits(st.defense as nat);
    let d5 = dec_digits(st.attack_action_point_cost as nat);
    let d6 = dec_digits(st.max_attacks_per_round as nat);
    let d7 = dec_digits(st.range as nat);
    let pt = passive_tokens(st.passive_combat_abilities@);
    let at = active_tokens(st.active_abilities@);
    assert(ron_of(st) == (((((((((((((((((((("(name:\""@ + st.name@) + "\",max_action_points:"@) + d1) + ",max_health_points:"@) + d2) + ",damage:"@) + d3) + ",defense:"@) + d4) + ",attack_action_point_cost:"@) + d5) + ",max_attacks_per_round:"@) + d6) + ",range:"@) + d7) + ",passive_combat_abilities:["@) + pt) + "],active_abilities:["@) + at) + "])"@));

    lemma_concat_associative((((((((((((((((((("(name:\""@ + st.name@) + "\",max_action_points:"@) + d1) + ",max_health_points:"@) + d2) + ",damage:"@) + d3) + ",defense:"@) + d4) + ",attack_action_point_cost:"@) + d5) + ",max_attacks_per_round:"@) + d6) + ",range:"@) + d7) + ",passive_combat_abilities:["@) + pt) + "],active_abilities:["@), at, "])"@);
    lemma_concat_associative(((((((((((((((((("(name:\""@ + st.name@) + "\",max_action_points:"@) + d1) + ",max_health_points:"@) + d2) + ",damage:"@) + d3) + ",defense:"@) + d4) + ",attack_action_point_cost:"@) + d5) + ",max_attacks_per_round:"@) + d6) + ",range:"@) + d7) + ",passive_combat_abilities:["@) + pt), "],active_abilities:["@, (at + "])"@));
    lemma_concat_associative((((((((((((((((("(name:\""@ + st.name@) + "\",max_action_points:"@) + d1) + ",max_health_points:"@) + d2) + ",damage:"@) + d3) + ",defense:"@) + d4) + ",attack_action_point_cost:"@) + d5) + ",max_attacks_per_round:"@) + d6) + ",range:"@) + d7) + ",passive_combat_abilities:["@), pt, ("],active_abilities:["@ + (at + "])"@)));
    lemma_concat_associative(((((((((((((((("(name:\""@ + st.name@) + "\",max_action_points:"@) + d1) + ",max_health_points:"@) + d2) + ",damage:"@) + d3) + ",defense:"@) + d4) + ",attack_action_point_cost:"@) + d5) + ",max_attacks_per_round:"@) + d6) + ",range:"@) + d7), ",passive_combat_abilities:["@, (pt + ("],active_abilities:["@ + (at + "])"@))));
    lemma_concat_associative((((((((((((((("(name:\""@ + st.name@) + "\",max_action_points:"@) + d1) + ",max_health_points:"@) + d2) + ",damage:"@) + d3) + ",defense:"@) + d4) + ",attack_action_point_cost:"@) + d5) + ",max_attacks_per_round:"@) + d6) + ",range:"@), d7, (",passive_combat_abilities:["@ + (pt + ("],active_abilities:["@ + (at + "])"@)))));
    lemma_concat_associative(((((((((((((("(name:\""@ + st.name@) + "\",max_action_points:"@) + d1) + ",max_health_points:"@) + d2) + ",damage:"@) + d3) + ",defense:"@) + d4) + ",attack_action_point_cost:"@) + d5) + ",max_attacks_per_round:"@) + d6), ",range:"@, (d7 + (",passive_combat_abilities:["@ + (pt + ("],active_abilities:["@ + (at + "])"@))))));
    lemma_concat_associative((((((((((((("(name:\""@ + st.name@) + "\",max_action_points:"@) + d1) + ",max_health_points:"@) + d2) + ",damage:"@) + d3) + ",defense:"@) + d4) + ",attack_action_point_cost:"@) + d5) + ",max_attacks_per_round:"@), d6, (",range:"@ + (d7 + (",passive_combat_abilities:["@ + (pt + ("],active_abilities:["@ + (at + "])"@)))))));
    lemma_concat_associative(((((((((((("(name:\""@ + st.name@) + "\",max_action_points:"@) + d1) + ",max_health_points:"@) + d2) + ",damage:"@) + d3) + ",defense:"@) + d4) + ",attack_action_point_cost:"@) + d5), ",max_attacks_per_round:"@, (d6 + (",range:"@ + (d7 + (",passive_combat_abilities:["@ + (pt + ("],active_abilities:["@ + (at + "])"@))))))));
    lemma_concat_associative((((((((((("(name:\""@ + st.name@) + "\",max_action_points:"@) + d1) + ",max_health_points:"@) + d2) + ",damage:"@) + d3) + ",defense:"@) + d4) + ",attack_action_point_cost:"@), d5, (",max_attacks_per_round:"@ + (d6 + (",range:"@ + (d7 + (",passive_combat_abilities:["@ + (pt + ("],active_abilities:["@ + (at + "])"@)))))))));
    lemma_concat_associative(((((((((("(name:\""@ + st.name@) + "\",max_action_points:"@) + d1) + ",max_health_points:"@) + d2) + ",damage:"@) + d3) + ",defense:"@) + d4), ",attack_action_point_cost:"@, (d5 + (",max_attacks_per_round:"@ + (d6 + (",range:"@ + (d7 + (",passive_combat_abilities:["@ + (pt + ("],active_abilities:["@ + (at + "])"@))))))))));
    lemma_concat_associative((((((((("(name:\""@ + st.name@) + "\",max_action_points:"@) + d1) + ",max_health_points:"@) + d2) + ",damage:"@) + d3) + ",defense:"@), d4, (",attack_action_point_cost:"@ + (d5 + (",max_attacks_per_round:"@ + (d6 + (",range:"@ + (d7 + (",passive_combat_abilities:["@ + (pt + ("],active_abilities:["@ + (at + "])"@)))))))))));
    lemma_concat_associative(((((((("(name:\""@ + st.name@) + "\",max_action_points:"@) + d1) + ",max_health_points:"@) + d2) + ",damage:"@) + d3), ",defense:"@, (d4 + (",attack_action_point_cost:"@ + (d5 + (",max_attacks_per_round:"@ + (d6 + (",range:"@ + (d7 + (",passive_combat_abilities:["@ + (pt + ("],active_abilities:["@ + (at + "])"@))))))))))));
    lemma_concat_associative((((((("(name:\""@ + st.name@) + "\",max_action_points:"@) + d1) + ",max_health_points:"@) + d2) + ",damage:"@), d3, (",defense:"@ + (d4 + (",attack_action_point_cost:"@ + (d5 + (",max_attacks_per_round:"@ + (d6 + (",range:"@ + (d7 + (",passive_combat_abilities:["@ + (pt + ("],active_abilities:["@ + (at + "])"@)))))))))))));
    lemma_concat_associative(((((("(name:\""@ + st.name@) + "\",max_action_points:"@) + d1) + ",max_health_points:"@) + d2), ",damage:"@, (d3 + (",defense:"@ + (d4 + (",attack_action_point_cost:"@ + (d5 + (",max_attacks_per_round:"@ + (d6 + (",range:"@ + (d7 + (",passive_combat_abilities:["@ + (pt + ("],active_abilities:["@ + (at + "])"@))))))))))))));
    lemma_concat_associative((((("(name:\""@ + st.name@) + "\",max_action_points:"@) + d1) + ",max_health_points:"@), d2, (",damage:"@ + (d3 + (",defense:"@ + (d4 + (",attack_action_point_cost:"@ + (d5 + (",max_attacks_per_round:"@ + (d6 + (",range:"@ + (d7 + (",passive_combat_abilities:["@ + (pt + ("],active_abilities:["@ + (at + "])"@)))))))))))))));
    lemma_concat_associative(((("(name:\""@ + st.name@) + "\",max_action_points:"@) + d1), ",max_health_points:"@, (d2 + (",damage:"@ + (d3 + (",defense:"@ + (d4 + (",attack_action_point_cost:"@ + (d5 + (",max_attacks_per_round:"@ + (d6 + (",range:"@ + (d7 + (",passive_combat_abilities:["@ + (pt + ("],active_abilities:["@ + (at + "])"@))))))))))))))));
    lemma_concat_associative((("(name:\""@ + st.name@) + "\",max_action_points:"@), d1, (",max_health_points:"@ + (d2 + (",damage:"@ + (d3 + (",defense:"@ + (d4 + (",attack_action_point_cost:"@ + (d5 + (",max_attacks_per_round:"@ + (d6 + (",range:"@ + (d7 + (",passive_combat_abilities:["@ + (pt + ("],active_abilities:["@ + (at + "])"@)))))))))))))))));
    lemma_concat_associative(("(name:\""@ + st.name@), "\",max_action_points:"@, (d1 + (",max_health_points:"@ + (d2 + (",damage:"@ + (d3 + (",defense:"@ + (d4 + (",attack_action_point_cost:"@ + (d5 + (",max_attacks_per_round:"@ + (d6 + (",range:"@ + (d7 + (",passive_combat_abilities:["@ + (pt + ("],active_abilities:["@ + (at + "])"@))))))))))))))))));
    lemma_concat_associative("(name:\""@, st.name@, ("\",max_action_points:"@ + (d1 + (",max_health_points:"@ + (d2 + (",damage:"@ + (d3 + (",defense:"@ + (d4 + (",attack_action_point_cost:"@ + (d5 + (",max_attacks_per_round:"@ + (d6 + (",range:"@ + (d7 + (",passive_combat_abilities:["@ + (pt + ("],active_abilities:["@ + (at + "])"@)))))))))))))))))));

    assert(tail9(st) == "],active_abilities:["@ + (at + "])"@));
    assert(tail8(st) == ",passive_combat_abilities:["@ + (pt + tail9(st)));
    assert(tail7(st) == ",range:"@ + (d7 + tail8(st)));
    assert(tail6(st) == ",max_attacks_per_round:"@ + (d6 + tail7(st)));
    assert(tail5(st) == ",attack_action_point_cost:"@ + (d5 + tail6(st)));
    assert(tail4(st) == ",defense:"@ + (d4 + tail5(st)));
    assert(tail3(st) == ",damage:"@ + (d3 + tail4(st)));
    assert(tail2(st) == ",max_health_points:"@ + (d2 + tail3(st)));
    assert(tail1(st) == "\",max_action_points:"@ + (d1 + tail2(st)));
}

/// Strips one literal-labelled number field off the front of two equal
/// texts.
proof fn lemma_strip_field(lit: Seq<char>, n1: nat, r1: Seq<char>, n2: nat, r2: Seq<char>)
    requires
        lit + (dec_digits(n1) + r1) == lit + (dec_digits(n2) + r2),
        r1.len() > 0 && !is_dec_digit(r1[0]),
        r2.len() > 0 && !is_dec_digit(r2[0]),
    ensures
        n1 == n2,
        r1 == r2,
{
    lemma_cancel_prefix(lit, dec_digits(n1) + r1, dec_digits(n2) + r2);
    lemma_split_number(n1, r1, n2, r2);
}

/// Serialization loses nothing: two records with the same canonical RON
/// text agree in every field, name and ability lists included — a reloaded
/// record can only be the record its text came from.
pub proof fn lemma_ron_of_injective(a: UnitStats, b: UnitStats)
    requires
        name_ok(a.name@),
        name_ok(b.name@),
        ron_of(a) == ron_of(b),
    ensures
        a.name@ == b.name@,
        a.max_action_points == b.max_action_points,
        a.max_health_points == b.max_health_points,
        a.damage == b.damage,
        a.defense == b.defense,
        a.attack_action_point_cost == b.attack_action_point_cost,
        a.max_attacks_per_round == b.max_attacks_per_round,
        a.range == b.range,
        a.passive_combat_abilities@ == b.passive_combat_abilities@,
        a.active_abilities@ == b.active_abilities@,
{
    reveal_strlit("(name:\"");
    reveal_strlit("\",max_action_points:");
    reveal_strlit(",max_health_points:");
    reveal_strlit(",damage:");
    reveal_strlit(",defense:");
    reveal_strlit(",attack_action_point_cost:");
    reveal_strlit(",max_attacks_per_round:");
    reveal_strlit(",range:");
    reveal_strlit(",passive_combat_abilities:[");
    reveal_strlit("],active_abilities:[");
    reveal_strlit("])");
    lemma_ron_shape(a);
    lemma_ron_shape(b);
    lemma_cancel_prefix("(name:\""@, a.name@ + tail1(a), b.name@ + tail1(b));
    assert(tail1(a)[0] == '"');
    assert(tail1(b)[0] == '"');
    lemma_scan_split(a.name@, tail1(a), b.name@, tail1(b), |c: char| c != '"');

    assert(!is_dec_digit(tail2(a)[0]));
    assert(!is_dec_digit(tail2(b)[0]));
    lemma_strip_field("\",max_action_points:"@, a.max_action_points as nat, tail2(a), b.max_action_points as nat, tail2(b));
    assert(!is_dec_digit(tail3(a)[0]));
    assert(!is_dec_digit(tail3(b)[0]));
    lemma_strip_field(",max_health_points:"@, a.max_health_points as nat, tail3(a), b.max_health_points as nat, tail3(b));
    assert(!is_dec_digit(tail4(a)[0]));
    assert(!is_dec_digit(tail4(b)[0]));
    lemma_strip_field(",damage:"@, a.damage as nat, tail4(a), b.damage as nat, tail4(b));
    assert(!is_dec_digit(tail5(a)[0]));
    assert(!is_dec_digit(tail5(b)[0]));
    lemma_strip_field(",defense:"@, a.defense as nat, tail5(a), b.defense as nat, tail5(b));
    assert(!is_dec_digit(tail6(a)[0]));
    assert(!is_dec_digit(tail6(b)[0]));
    lemma_strip_field(",attack_action_point_cost:"@, a.attack_action_point_cost as nat, tail6(a), b.attack_action_point_cost as nat, tail6(b));
    assert(!is_dec_digit(tail7(a)[0]));
    assert(!is_dec_digit(tail7(b)[0]));
    lemma_strip_field(",max_attacks_per_round:"@, a.max_attacks_per_round as nat, tail7(a), b.max_attacks_per_round as nat, tail7(b));
    assert(!is_dec_digit(tail8(a)[0]));
    assert(!is_dec_digit(tail8(b)[0]));
    lemma_strip_field(",range:"@, a.range as nat, tail8(a), b.range as nat, tail8(b));
    lemma_cancel_prefix(",passive_combat_abilities:["@, passive_tokens(a.passive_combat_abilities@) + tail9(a), passive_tokens(b.passive_combat_abilities@) + tail9(b));
    lemma_passive_tokens_no_bracket(a.passive_combat_abilities@);
    lemma_passive_tokens_no_bracket(b.passive_combat_abilities@);
    assert(tail9(a)[0] == ']');
    assert(tail9(b)[0] == ']');
    lemma_scan_split(passive_tokens(a.passive_combat_abilities@), tail9(a), passive_tokens(b.passive_combat_abilities@), tail9(b), |c: char| c != ']');
    lemma_passive_tokens_injective(a.passive_combat_abilities@, b.passive_combat_abilities@);
    lemma_cancel_prefix("],active_abilities:["@, active_tokens(a.active_abilities@) + "])"@, active_tokens(b.active_abilities@) + "])"@);
    lemma_active_tokens_no_bracket(a.active_abilities@);
    lemma_active_tokens_no_bracket(b.active_abilities@);
    assert("])"@[0] == ']');
    assert("])"@[0] == ']');
    lemma_scan_split(active_tokens(a.active_abilities@), "])"@, active_tokens(b.active_abilities@), "])"@, |c: char| c != ']');
    lemma_active_tokens_injective(a.active_abilities@, b.active_abilities@);
}

} // verus!


