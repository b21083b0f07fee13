//! HIP-4 outcome identifiers (`encoding = 10 * outcome + side`, coin
//! `#<encoding>`, token `+<encoding>`, asset id `100_000_000 + encoding`),
//! spot pair id normalisation and alias lists.

use vstd::prelude::*;
use crate::text::{
    all_ascii_digits, decimal, decimal_value, is_ascii_digit, is_digit_char, parse_decimal_u32, trim,
    trimmed, u32_to_string,
};

verus! {

/// Asset ids of outcome sides start here.
pub const OUTCOME_ASSET_ID_OFFSET: u32 = 100_000_000;

/// The asset id of an outcome encoding: `None` unless the outcome number is
/// positive, the side is 0 or 1, and the id fits in a `u32`.
pub open spec fn encoding_asset_id(encoding: u32) -> Option<u32> {
    if encoding / 10 == 0 || encoding % 10 > 1 {
        None
    } else if encoding + OUTCOME_ASSET_ID_OFFSET <= u32::MAX {
        Some((encoding + OUTCOME_ASSET_ID_OFFSET) as u32)
    } else {
        None
    }
}

/// `t` without one leading `#` or `+`.
pub open spec fn strip_outcome_prefix(t: Seq<char>) -> Seq<char> {
    if t.len() > 0 && (t[0] == '#' || t[0] == '+') {
        t.drop_first()
    } else {
        t
    }
}

/// The outcome encoding that an identifier names: a coin `#<e>`, a token
/// `+<e>`, a bare encoding `<e>` or an asset id `<100000000 + e>`, with
/// surrounding white space ignored.
pub open spec fn identifier_encoding(value: Seq<char>) -> Option<u32> {
    let t = trim(value);
    let n = strip_outcome_prefix(t);
    if t.len() == 0 || n.len() == 0 || !all_ascii_digits(n) || decimal_value(n) > u32::MAX {
        None
    } else {
        let v = decimal_value(n);
        let e: u32 = if v >= OUTCOME_ASSET_ID_OFFSET {
            (v - OUTCOME_ASSET_ID_OFFSET) as u32
        } else {
            v as u32
        };
        if encoding_asset_id(e) is Some {
            Some(e)
        } else {
            None
        }
    }
}

/// The asset id that an identifier names.
pub open spec fn identifier_asset_id(value: Seq<char>) -> Option<u32> {
    match identifier_encoding(value) {
        Some(e) => encoding_asset_id(e),
        None => None,
    }
}

/// `#` followed by the decimal encoding.
pub open spec fn coin_name(encoding: u32) -> Seq<char> {
    seq!['#'] + decimal(encoding as nat)
}

/// `+` followed by the decimal encoding.
pub open spec fn token_name(encoding: u32) -> Seq<char> {
    seq!['+'] + decimal(encoding as nat)
}

/// The names in `values`, trimmed, without empty ones and without repeats,
/// each kept where it first occurs.
pub open spec fn unique_name_seq(values: Seq<Seq<char>>) -> Seq<Seq<char>>
    decreases values.len(),
{
    if values.len() == 0 {
        Seq::empty()
    } else {
        let prev = unique_name_seq(values.drop_last());
        let t = trim(values.last());
        if t.len() == 0 || prev.contains(t) {
            prev
        } else {
            prev.push(t)
        }
    }
}

/// `unique_name_seq` holds no name twice.
pub proof fn lemma_unique_names_distinct(values: Seq<Seq<char>>)
    ensures
        unique_name_seq(values).no_duplicates(),
    decreases values.len(),
{
    if values.len() > 0 {
        lemma_unique_names_distinct(values.drop_last());
    }
}

pub open spec fn string_views(v: Seq<String>) -> Seq<Seq<char>> {
    v.map_values(|s: String| s@)
}

/// A spot pair id in its normal form: trimmed, and a bare number `n`
/// written `@n`.
pub open spec fn normal_spot_pair_id(value: Seq<char>) -> Seq<char> {
    let t = trim(value);
    if t.len() > 0 && all_ascii_digits(t) {
        seq!['@'] + t
    } else {
        t
    }
}

/// The names under which an outcome market can be found from `value`: for
/// an outcome identifier with encoding `e`, the trimmed text, `#e`, `+e`,
/// `e` and the asset id; for anything else, the trimmed text alone.
pub open spec fn alias_candidates(value: Seq<char>) -> Seq<Seq<char>> {
    let t = trim(value);
    match identifier_encoding(t) {
        None => if t.len() == 0 {
            Seq::empty()
        } else {
            seq![t]
        },
        Some(e) => {
            let asset_id = match encoding_asset_id(e) {
                Some(a) => a,
                None => 0,
            };
            unique_name_seq(
                seq![t, coin_name(e), token_name(e), decimal(e as nat), decimal(asset_id as nat)],
            )
        },
    }
}

/// `a` followed by `b`, as a new string.
pub fn concat_str(a: &str, b: &str) -> (r: String)
    ensures
        r@ == a@ + b@,
{
    let mut r = a.to_owned();
    r.append(b);
    r
}

pub fn outcome_asset_id_from_encoding(encoding: u32) -> (r: Option<u32>)
    ensures
        r == encoding_asset_id(encoding),
{
    let side = encoding % 10;
    let outcome = encoding / 10;
    if outcome == 0 || side > 1 {
        return None;
    }
    OUTCOME_ASSET_ID_OFFSET.checked_add(encoding)
}

/// The outcome encoding named by `value` (`#20`, `+20`, `20` or
/// `100000020` all give 20).
pub fn outcome_encoding_from_identifier(value: &str) -> (r: Option<u32>)
    ensures
        r == identifier_encoding(value@),
{
    let text = trimmed(value);
    if text.is_empty() {
        return None;
    }
    let len = text.unicode_len();
    let first = text.get_char(0);
    let numeric = if first == '#' || first == '+' {
        text.substring_char(1, len)
    } else {
        text
    };
    assert(numeric@ == strip_outcome_prefix(text@));
    let value = match parse_decimal_u32(numeric) {
        Some(v) => v,
        None => return None,
    };
    let encoding = if value >= OUTCOME_ASSET_ID_OFFSET {
        value - OUTCOME_ASSET_ID_OFFSET
    } else {
        value
    };
    match outcome_asset_id_from_encoding(encoding) {
        Some(_) => Some(encoding),
        None => None,
    }
}

/// The asset id named by an outcome identifier.
pub fn resolve_outcome_asset_id_from_identifier(value: &str) -> (r: Option<u32>)
    ensures
        r == identifier_asset_id(value@),
        r matches Some(a) ==> identifier_encoding(value@) matches Some(e) && a
            == e + OUTCOME_ASSET_ID_OFFSET,
{
    match outcome_encoding_from_identifier(value) {
        Some(e) => outcome_asset_id_from_encoding(e),
        None => None,
    }
}

/// Whether `s` is among `names`.
fn contains_name(names: &Vec<String>, s: &String) -> (r: bool)
    ensures
        r == string_views(names@).contains(s@),
{
    let mut j: usize = 0;
    while j < names.len()
        invariant
            j <= names.len(),
            forall|k: int| 0 <= k < j ==> names@[k]@ != s@,
        decreases names.len() - j,
    {
        if names[j] == *s {
            assert(string_views(names@)[j as int] == s@);
            return true;
        }
        j = j + 1;
    }
    proof {
        if string_views(names@).contains(s@) {
            let k = choose|k: int| 0 <= k < names@.len() && string_views(names@)[k] == s@;
            assert(names@[k]@ == s@);
        }
    }
    false
}

/// The trimmed, non-empty names of `values` without repeats, in order of
/// first occurrence.
pub fn unique_names(values: &Vec<String>) -> (out: Vec<String>)
    ensures
        string_views(out@) == unique_name_seq(string_views(values@)),
{
    let mut out: Vec<String> = Vec::new();
    let mut i: usize = 0;
    while i < values.len()
        invariant
            i <= values.len(),
            string_views(out@) == unique_name_seq(string_views(values@).take(i as int)),
        decreases values.len() - i,
    {
        let ts = trimmed(values[i].as_str());
        let t = ts.to_owned();
        let ghost views = string_views(values@);
        assert(views.take(i + 1).drop_last() =~= views.take(i as int));
        assert(views.take(i + 1).last() == values@[i as int]@);
        if !ts.is_empty() && !contains_name(&out, &t) {
            let ghost before = string_views(out@);
            out.push(t);
            assert(string_views(out@) =~= before.push(t@));
        }
        i = i + 1;
    }
    assert(string_views(values@).take(values.len() as int) =~= string_views(values@));
    out
}

/// The normal form of a spot pair id (`107` becomes `@107`).
pub fn normalize_spot_pair_id(value: &str) -> (r: String)
    ensures
        r@ == normal_spot_pair_id(value@),
{
    let text = trimmed(value);
    let n = text.unicode_len();
    let mut all_digits = true;
    let mut i: usize = 0;
    while i < n
        invariant
            n == text@.len(),
            i <= n,
            all_digits == all_ascii_digits(text@.take(i as int)),
        decreases n - i,
    {
        let c = text.get_char(i);
        let ghost prev = all_digits;
        all_digits = all_digits && is_digit_char(c);
        proof {
            let t1 = text@.take(i + 1);
            assert(t1.drop_last() =~= text@.take(i as int));
            if prev && is_ascii_digit(c) {
                assert forall|k: int| 0 <= k < t1.len() implies is_ascii_digit(#[trigger] t1[k]) by {
                    if k < i {
                        assert(t1[k] == text@.take(i as int)[k]);
                    }
                }
            }
            if !all_digits {
                if !prev {
                    let k = choose|k: int| 0 <= k < i && !is_ascii_digit(#[trigger] text@.take(i as int)[k]);
                    assert(t1[k] == text@.take(i as int)[k]);
                } else {
                    assert(t1[i as int] == c);
                }
            }
        }
        i = i + 1;
    }
    assert(text@.take(n as int) =~= text@);
    if all_digits && n > 0 {
        let r = concat_str("@", text);
        proof {
            reveal_strlit("@");
        }
        r
    } else {
        text.to_owned()
    }
}

/// The names under which the outcome market named by `value` is indexed.
pub fn outcome_alias_candidates(value: &str) -> (r: Vec<String>)
    ensures
        string_views(r@) == alias_candidates(value@),
{
    let text = trimmed(value);
    let encoding = match outcome_encoding_from_identifier(text) {
        Some(e) => e,
        None => {
            if text.is_empty() {
                let r: Vec<String> = Vec::new();
                assert(string_views(r@) =~= Seq::<Seq<char>>::empty());
                return r;
            } else {
                let mut r: Vec<String> = Vec::new();
                r.push(text.to_owned());
                assert(string_views(r@) =~= seq![text@]);
                return r;
            }
        },
    };
    let asset_id = match outcome_asset_id_from_encoding(encoding) {
        Some(a) => a,
        None => 0,
    };
    let digits = u32_to_string(encoding);
    let mut names: Vec<String> = Vec::new();
    names.push(text.to_owned());
    names.push(concat_str("#", digits.as_str()));
    names.push(concat_str("+", digits.as_str()));
    names.push(u32_to_string(encoding));
    names.push(u32_to_string(asset_id));
    proof {
        reveal_strlit("#");
        reveal_strlit("+");
        assert("#"@ =~= seq!['#']);
        assert("+"@ =~= seq!['+']);
        assert(string_views(names@) =~= seq![
            text@,
            coin_name(encoding),
            token_name(encoding),
            decimal(encoding as nat),
            decimal(asset_id as nat),
        ]);
    }
    unique_names(&names)
}

} // verus!
