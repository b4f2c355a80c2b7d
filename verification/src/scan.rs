//! Classifying scanned strings: mode tokens, the custom-item action
//! token, removal-reference codes, and ordinary barcodes.

use vstd::prelude::*;

use crate::text::{
    all_digits, chars_of, dec_seq, dec_value, lemma_dec_seq_digits, lemma_dec_seq_value,
    parse_dec_range, push_dec, str_eq, string_from_chars,
};

verus! {

/// The interpreter's mode: how the next ordinary barcode is handled.
#[derive(Clone, Copy, PartialEq, Eq, Structural, Debug)]
pub enum ScanOp {
    Idle,
    Register,
    Add,
    Remove,
    Open,
    Finish,
}

/// The mode a fixed token string selects, if any.
pub open spec fn token_mode(s: Seq<char>) -> Option<ScanOp> {
    if s == "???"@ {
        Some(ScanOp::Idle)
    } else if s == "+++"@ {
        Some(ScanOp::Register)
    } else if s == ">>>"@ {
        Some(ScanOp::Add)
    } else if s == "<<<"@ {
        Some(ScanOp::Remove)
    } else if s == "///"@ {
        Some(ScanOp::Open)
    } else if s == "</<"@ {
        Some(ScanOp::Finish)
    } else {
        None
    }
}

impl ScanOp {
    /// Recognizes one of the six fixed mode tokens.
    pub fn from_str(s: &str) -> (r: Option<ScanOp>)
        ensures
            r == token_mode(s@),
    {
        if str_eq(s, "???") {
            Some(ScanOp::Idle)
        } else if str_eq(s, "+++") {
            Some(ScanOp::Register)
        } else if str_eq(s, ">>>") {
            Some(ScanOp::Add)
        } else if str_eq(s, "<<<") {
            Some(ScanOp::Remove)
        } else if str_eq(s, "///") {
            Some(ScanOp::Open)
        } else if str_eq(s, "</<") {
            Some(ScanOp::Finish)
        } else {
            None
        }
    }
}

/// The position of the first `c` in `s` at or after `i`.
pub open spec fn find_char_from(s: Seq<char>, c: char, i: int) -> Option<int>
    decreases s.len() - i,
{
    if i < 0 || i >= s.len() {
        None
    } else if s[i] == c {
        Some(i)
    } else {
        find_char_from(s, c, i + 1)
    }
}

proof fn lemma_find_char_from(s: Seq<char>, c: char, i: int, p: int)
    requires
        0 <= i <= p <= s.len(),
        forall|j: int| i <= j < p ==> s[j] != c,
        p < s.len() ==> s[p] == c,
    ensures
        find_char_from(s, c, i) == if p < s.len() {
            Some(p)
        } else {
            None::<int>
        },
    decreases p - i,
{
    if i < p {
        lemma_find_char_from(s, c, i + 1, p);
    }
}

/// What a removal-reference code denotes: a string of the shape
/// `~a|b~` with `a` and `b` non-empty digit runs whose values fit in
/// an `i32` — the item id and the stock-unit id printed on a custom
/// item's label.  Anything else denotes nothing.
pub open spec fn parse_custom_spec(s: Seq<char>) -> Option<(i32, i32)> {
    if s.len() < 5 || s[0] != '~' || s[s.len() - 1] != '~' {
        None
    } else {
        match find_char_from(s, '|', 1) {
            None => None,
            Some(p) => {
                let d1 = s.subrange(1, p);
                let d2 = s.subrange(p + 1, s.len() - 1);
                if d1.len() > 0 && d2.len() > 0 && all_digits(d1) && all_digits(d2) && dec_value(
                    d1,
                ) <= i32::MAX && dec_value(d2) <= i32::MAX {
                    Some((dec_value(d1) as i32, dec_value(d2) as i32))
                } else {
                    None
                }
            },
        }
    }
}

/// Extracts the (item id, stock-unit id) pair from a removal-reference
/// code, or nothing when the string is not one.
pub fn parse_custom_code(line: &str) -> (r: Option<(i32, i32)>)
    ensures
        r == parse_custom_spec(line@),
{
    let v = chars_of(line);
    let n = v.len();
    if n < 5 {
        return None;
    }
    if v[0] != '~' {
        return None;
    }
    if v[n - 1] != '~' {
        return None;
    }
    let mut p: usize = 1;
    while p < n && v[p] != '|'
        invariant
            1 <= p <= n,
            n == v@.len(),
            v@ == line@,
            forall|j: int| 1 <= j < p ==> v@[j] != '|',
        decreases n - p,
    {
        p = p + 1;
    }
    proof {
        lemma_find_char_from(line@, '|', 1, p as int);
    }
    if p == n {
        return None;
    }
    let a = parse_dec_range(&v, 1, p);
    let b = parse_dec_range(&v, p + 1, n - 1);
    match (a, b) {
        (Some(x), Some(y)) => Some((x, y)),
        _ => None,
    }
}

/// The removal-reference code printed on a custom item's label:
/// `~a|b~` for item id `a` and stock-unit id `b`.
pub open spec fn custom_code_of(item_id: int, unit_id: int) -> Seq<char>
    recommends
        item_id >= 0,
        unit_id >= 0,
{
    seq!['~'] + dec_seq(item_id as nat) + seq!['|'] + dec_seq(unit_id as nat) + seq!['~']
}

/// Renders the removal-reference code for a unit, the inverse of
/// [`parse_custom_code`].
pub fn format_custom_code(item_id: i32, stock_id: i32) -> (r: String)
    requires
        item_id >= 0,
        stock_id >= 0,
    ensures
        r@ == custom_code_of(item_id as int, stock_id as int),
{
    let mut v: Vec<char> = Vec::new();
    v.push('~');
    push_dec(item_id as u32, &mut v);
    v.push('|');
    push_dec(stock_id as u32, &mut v);
    v.push('~');
    proof {
        assert(v@ =~= custom_code_of(item_id as int, stock_id as int));
    }
    string_from_chars(&v)
}

/// Parsing a rendered removal-reference code gives back the pair it
/// was rendered from: the codes printed on labels always resolve to
/// the unit they were printed for.
pub proof fn lemma_custom_code_round_trip(item_id: i32, stock_id: i32)
    requires
        item_id >= 0,
        stock_id >= 0,
    ensures
        parse_custom_spec(custom_code_of(item_id as int, stock_id as int)) == Some(
            (item_id, stock_id),
        ),
{
    let da = dec_seq(item_id as nat);
    let db = dec_seq(stock_id as nat);
    lemma_dec_seq_digits(item_id as nat);
    lemma_dec_seq_digits(stock_id as nat);
    lemma_dec_seq_value(item_id as nat);
    lemma_dec_seq_value(stock_id as nat);
    let s = custom_code_of(item_id as int, stock_id as int);
    let p = 1 + da.len() as int;
    assert(s.len() == da.len() + db.len() + 3);
    assert(s[0] == '~');
    assert(s[s.len() - 1] == '~');
    assert(s[p] == '|');
    assert forall|j: int| 1 <= j < p implies s[j] != '|' by {
        assert(s[j] == da[j - 1]);
        assert(crate::text::is_digit(da[j - 1]));
    }
    lemma_find_char_from(s, '|', 1, p);
    assert(s.subrange(1, p) =~= da);
    assert(s.subrange(p + 1, s.len() - 1) =~= db);
}

/// A printed label's removal-reference code always classifies as a
/// removal reference for exactly the unit it was printed for: it can
/// never be mistaken for a mode token, the custom-item action token,
/// or an ordinary barcode.
pub proof fn lemma_label_code_classifies(item_id: i32, unit_id: i32)
    requires
        item_id >= 0,
        unit_id >= 0,
    ensures
        spec_classify(custom_code_of(item_id as int, unit_id as int)) == Scan::RemovalRef(
            item_id,
            unit_id,
        ),
{
    let s = custom_code_of(item_id as int, unit_id as int);
    lemma_dec_seq_digits(item_id as nat);
    lemma_dec_seq_digits(unit_id as nat);
    assert(s.len() >= 5);
    lemma_custom_code_round_trip(item_id, unit_id);
    reveal_strlit("???");
    reveal_strlit("+++");
    reveal_strlit(">>>");
    reveal_strlit("<<<");
    reveal_strlit("///");
    reveal_strlit("</<");
    reveal_strlit("~+~");
    assert(s != "???"@ && s != "+++"@ && s != ">>>"@ && s != "<<<"@ && s != "///"@ && s != "</<"@
        && s != "~+~"@) by {
        assert("???"@.len() == 3 && "+++"@.len() == 3 && ">>>"@.len() == 3 && "<<<"@.len() == 3
            && "///"@.len() == 3 && "</<"@.len() == 3 && "~+~"@.len() == 3);
    }
}

/// What one scanned string is, decided in priority order: a mode
/// token, the custom-item action token, a removal-reference code, or
/// an ordinary barcode.
#[derive(Clone, Copy, PartialEq, Eq, Structural, Debug)]
pub enum Scan {
    /// One of the six fixed mode tokens.
    Token(ScanOp),
    /// The custom-item action token `~+~`.
    CustomAction,
    /// A removal-reference code carrying an item id and a unit id.
    RemovalRef(i32, i32),
    /// Anything else: an ordinary barcode.
    Barcode,
}

/// The classification of a scanned string, in priority order.
pub open spec fn spec_classify(s: Seq<char>) -> Scan {
    match token_mode(s) {
        Some(op) => Scan::Token(op),
        None => if s == "~+~"@ {
            Scan::CustomAction
        } else {
            match parse_custom_spec(s) {
                Some((item_id, unit_id)) => Scan::RemovalRef(item_id, unit_id),
                None => Scan::Barcode,
            }
        },
    }
}

/// Classifies one scanned string.
pub fn classify(line: &str) -> (r: Scan)
    ensures
        r == spec_classify(line@),
{
    match ScanOp::from_str(line) {
        Some(op) => Scan::Token(op),
        None => {
            if str_eq(line, "~+~") {
                Scan::CustomAction
            } else {
                match parse_custom_code(line) {
                    Some(pair) => Scan::RemovalRef(pair.0, pair.1),
                    None => Scan::Barcode,
                }
            }
        },
    }
}

} // verus!
