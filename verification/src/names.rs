//! Deterministic naming of rendered assets.
//!
//! Every deliverable carries a file name built from the document identifier:
//! `"<id>.<ext>"` for a single-page document, `"<id>.zip"` for a per-format
//! archive, and `"<id>-page-<page>.<ext>"` (page number zero-padded to at
//! least three digits, 1-indexed) for the entries of a multi-page document.

use vstd::prelude::*;

verus! {

/// The decimal digit character for `d` (`d < 10`).
pub open spec fn spec_digit(d: nat) -> char {
    if d == 0 {
        '0'
    } else if d == 1 {
        '1'
    } else if d == 2 {
        '2'
    } else if d == 3 {
        '3'
    } else if d == 4 {
        '4'
    } else if d == 5 {
        '5'
    } else if d == 6 {
        '6'
    } else if d == 7 {
        '7'
    } else if d == 8 {
        '8'
    } else {
        '9'
    }
}

/// The decimal representation of `n`, most significant digit first,
/// without leading zeros (except for `n == 0`, which is `"0"`).
pub open spec fn spec_decimal(n: nat) -> Seq<char>
    decreases n,
{
    if n < 10 {
        seq![spec_digit(n)]
    } else {
        spec_decimal(n / 10) + seq![spec_digit(n % 10)]
    }
}

/// The decimal representation of `n`, zero-padded on the left to at least
/// three characters.
pub open spec fn spec_padded3(n: nat) -> Seq<char> {
    let d = spec_decimal(n);
    if d.len() == 1 {
        seq!['0', '0'] + d
    } else if d.len() == 2 {
        seq!['0'] + d
    } else {
        d
    }
}

/// The name of the encoded asset for page `page` of document `id` in the
/// format with extension `ext`: the page number is rendered in decimal,
/// zero-padded to at least three digits.
pub open spec fn spec_page_name(id: Seq<char>, page: nat, ext: Seq<char>) -> Seq<char> {
    id + "-page-"@ + spec_padded3(page) + "."@ + ext
}

/// The name of the single deliverable of a one-page document: `"<id>.<ext>"`.
pub open spec fn spec_single_name(id: Seq<char>, ext: Seq<char>) -> Seq<char> {
    id + "."@ + ext
}

/// The suggested download name of a per-format archive: `"<id>.zip"`.
pub open spec fn spec_archive_name(id: Seq<char>) -> Seq<char> {
    id + ".zip"@
}

/// The digit character for `d` as a one-character string.
fn digit_str(d: usize) -> (r: &'static str)
    requires
        d < 10,
    ensures
        r@ =~= seq![spec_digit(d as nat)],
{
    proof {
        reveal_strlit("0");
        reveal_strlit("1");
        reveal_strlit("2");
        reveal_strlit("3");
        reveal_strlit("4");
        reveal_strlit("5");
        reveal_strlit("6");
        reveal_strlit("7");
        reveal_strlit("8");
        reveal_strlit("9");
    }
    match d {
        0 => "0",
        1 => "1",
        2 => "2",
        3 => "3",
        4 => "4",
        5 => "5",
        6 => "6",
        7 => "7",
        8 => "8",
        _ => "9",
    }
}

/// Renders `n` in decimal.
pub fn decimal_string(n: usize) -> (r: String)
    ensures
        r@ == spec_decimal(n as nat),
    decreases n,
{
    if n < 10 {
        let r = String::from_str(digit_str(n));
        assert(r@ =~= spec_decimal(n as nat));
        r
    } else {
        let mut r = decimal_string(n / 10);
        r.append(digit_str(n % 10));
        assert(r@ =~= spec_decimal(n as nat));
        r
    }
}

/// Renders `n` in decimal, zero-padded on the left to at least three digits.
pub fn padded3_string(n: usize) -> (r: String)
    ensures
        r@ == spec_padded3(n as nat),
{
    let d = decimal_string(n);
    let len = d.as_str().unicode_len();
    proof {
        reveal_strlit("0");
        reveal_strlit("00");
    }
    if len == 1 {
        let mut r = String::from_str("00");
        r.append(d.as_str());
        assert(r@ =~= spec_padded3(n as nat));
        r
    } else if len == 2 {
        let mut r = String::from_str("0");
        r.append(d.as_str());
        assert(r@ =~= spec_padded3(n as nat));
        r
    } else {
        assert(d@ =~= spec_padded3(n as nat));
        d
    }
}

/// Builds the entry name for page `page` of document `id` with extension
/// `ext`.
pub fn page_name(id: &String, page: usize, ext: &str) -> (r: String)
    ensures
        r@ == spec_page_name(id@, page as nat, ext@),
{
    let mut r = id.clone();
    r.append("-page-");
    let p = padded3_string(page);
    r.append(p.as_str());
    r.append(".");
    r.append(ext);
    assert(r@ =~= spec_page_name(id@, page as nat, ext@));
    r
}

/// Builds the deliverable name for a one-page document.
pub fn single_name(id: &String, ext: &str) -> (r: String)
    ensures
        r@ == spec_single_name(id@, ext@),
{
    let mut r = id.clone();
    r.append(".");
    r.append(ext);
    assert(r@ =~= spec_single_name(id@, ext@));
    r
}

/// Builds the suggested download name of a per-format archive.
pub fn archive_name(id: &String) -> (r: String)
    ensures
        r@ == spec_archive_name(id@),
{
    let mut r = id.clone();
    r.append(".zip");
    assert(r@ =~= spec_archive_name(id@));
    r
}


/// Powers of ten.
pub open spec fn pow10(k: nat) -> nat
    decreases k,
{
    if k == 0 {
        1
    } else {
        10 * pow10((k - 1) as nat)
    }
}

/// Ten to the twentieth exceeds every 64-bit count.
proof fn lemma_pow10_20()
    ensures
        pow10(20) == 100000000000000000000,
{
    assert(pow10(0) == 1);
    assert(pow10(1) == 10);
    assert(pow10(2) == 100);
    assert(pow10(3) == 1000);
    assert(pow10(4) == 10000);
    assert(pow10(5) == 100000);
    assert(pow10(6) == 1000000);
    assert(pow10(7) == 10000000);
    assert(pow10(8) == 100000000);
    assert(pow10(9) == 1000000000);
    assert(pow10(10) == 10000000000);
    assert(pow10(11) == 100000000000);
    assert(pow10(12) == 1000000000000);
    assert(pow10(13) == 10000000000000);
    assert(pow10(14) == 100000000000000);
    assert(pow10(15) == 1000000000000000);
    assert(pow10(16) == 10000000000000000);
    assert(pow10(17) == 100000000000000000);
    assert(pow10(18) == 1000000000000000000);
    assert(pow10(19) == 10000000000000000000);
    assert(pow10(20) == 100000000000000000000);
}

/// A decimal rendering is never empty, and has a leading zero only for
/// zero itself.
proof fn lemma_decimal_leading(n: nat)
    ensures
        spec_decimal(n).len() >= 1,
        spec_decimal(n)[0] == '0' ==> n == 0,
    decreases n,
{
    if n >= 10 {
        lemma_decimal_leading(n / 10);
        assert(spec_decimal(n)[0] == spec_decimal(n / 10)[0]);
        assert(n / 10 >= 1);
    }
}

/// A number below the `k`-th power of ten renders in at most `k` digits.
proof fn lemma_decimal_len_le(n: nat, k: nat)
    requires
        1 <= k,
        n < pow10(k),
    ensures
        spec_decimal(n).len() <= k,
    decreases k,
{
    if n >= 10 {
        assert(pow10(k) == 10 * pow10((k - 1) as nat));
        assert(pow10(1) == 10 * pow10(0));
        assert(k >= 2);
        let p = pow10((k - 1) as nat) as int;
        vstd::arithmetic::div_mod::lemma_fundamental_div_mod(n as int, 10);
        if (n as int) / 10 >= p {
            assert(10 * ((n as int) / 10) >= 10 * p) by (nonlinear_arith)
                requires
                    (n as int) / 10 >= p,
            ;
            assert(false);
        }
        lemma_decimal_len_le(n / 10, (k - 1) as nat);
        assert(spec_decimal(n).len() == spec_decimal(n / 10).len() + 1);
    }
}

/// Distinct numbers have distinct decimal renderings.
proof fn lemma_decimal_injective(a: nat, b: nat)
    requires
        spec_decimal(a) == spec_decimal(b),
    ensures
        a == b,
    decreases a,
{
    lemma_decimal_leading(a);
    lemma_decimal_leading(b);
    if a < 10 && b < 10 {
        assert(spec_decimal(a) == seq![spec_digit(a)]);
        assert(spec_decimal(b) == seq![spec_digit(b)]);
        assert(spec_digit(a) == spec_digit(b));
        assert(a == b);
    } else if a >= 10 && b >= 10 {
        let qa = spec_decimal(a / 10);
        let qb = spec_decimal(b / 10);
        assert(spec_decimal(a) == qa + seq![spec_digit(a % 10)]);
        assert(spec_decimal(b) == qb + seq![spec_digit(b % 10)]);
        assert(spec_decimal(a).last() == spec_digit(a % 10));
        assert(spec_decimal(b).last() == spec_digit(b % 10));
        assert(a % 10 == b % 10);
        assert(qa =~= spec_decimal(a).drop_last());
        assert(qb =~= spec_decimal(b).drop_last());
        assert(a / 10 < a);
        lemma_decimal_injective(a / 10, b / 10);
        vstd::arithmetic::div_mod::lemma_fundamental_div_mod(a as int, 10);
        vstd::arithmetic::div_mod::lemma_fundamental_div_mod(b as int, 10);
        assert(a == b);
    } else if a < 10 {
        assert(spec_decimal(a).len() == 1);
        assert(spec_decimal(b).len() == spec_decimal(b / 10).len() + 1);
        assert(false);
    } else {
        assert(spec_decimal(b).len() == 1);
        assert(spec_decimal(a).len() == spec_decimal(a / 10).len() + 1);
        assert(false);
    }
}

/// A number with the shorter decimal rendering pads differently: either the
/// lengths of the padded forms differ, or the shorter number's padding puts
/// a zero where the longer number's leading digit stands.
proof fn lemma_padded3_distinct_lens(a: nat, b: nat)
    requires
        spec_decimal(a).len() < spec_decimal(b).len(),
    ensures
        spec_padded3(a) != spec_padded3(b),
{
    lemma_decimal_leading(a);
    lemma_decimal_leading(b);
    let da = spec_decimal(a);
    let db = spec_decimal(b);
    let la = da.len() as int;
    let lb = db.len() as int;
    assert(b >= 10);
    assert(db[0] != '0');
    if lb <= 3 {
        assert(spec_padded3(a).len() == 3);
        assert(spec_padded3(b).len() == 3);
        if lb == 2 {
            assert(la == 1);
            assert(spec_padded3(b)[1] == db[0]);
            assert(spec_padded3(a)[1] == '0');
        } else {
            assert(lb == 3);
            assert(spec_padded3(b)[0] == db[0]);
            assert(spec_padded3(a)[0] == '0');
        }
    } else {
        assert(spec_padded3(b).len() == lb);
        assert(spec_padded3(a).len() < lb);
    }
}

/// Distinct numbers have distinct zero-padded renderings.
proof fn lemma_padded3_injective(a: nat, b: nat)
    requires
        spec_padded3(a) == spec_padded3(b),
    ensures
        a == b,
{
    let da = spec_decimal(a);
    let db = spec_decimal(b);
    if da.len() < db.len() {
        lemma_padded3_distinct_lens(a, b);
        assert(false);
    } else if db.len() < da.len() {
        lemma_padded3_distinct_lens(b, a);
        assert(false);
    } else {
        if da.len() == 1 {
            assert(da[0] == spec_padded3(a)[2]);
            assert(db[0] == spec_padded3(b)[2]);
            assert(da =~= db);
        } else if da.len() == 2 {
            assert(da[0] == spec_padded3(a)[1]);
            assert(da[1] == spec_padded3(a)[2]);
            assert(db[0] == spec_padded3(b)[1]);
            assert(db[1] == spec_padded3(b)[2]);
            assert(da =~= db);
        } else {
            assert(spec_padded3(a) == da);
            assert(spec_padded3(b) == db);
        }
        lemma_decimal_injective(a, b);
    }
}

/// Different pages of the same document get different entry names in any
/// one format.
pub proof fn lemma_page_name_injective(id: Seq<char>, ext: Seq<char>, a: nat, b: nat)
    requires
        a != b,
    ensures
        spec_page_name(id, a, ext) != spec_page_name(id, b, ext),
{
    reveal_strlit("-page-");
    reveal_strlit(".");
    let pa = spec_padded3(a);
    let pb = spec_padded3(b);
    if spec_page_name(id, a, ext) == spec_page_name(id, b, ext) {
        assert(spec_page_name(id, a, ext).len() == id.len() + 6 + pa.len() + 1 + ext.len());
        assert(spec_page_name(id, b, ext).len() == id.len() + 6 + pb.len() + 1 + ext.len());
        assert(pa.len() == pb.len());
        assert forall|i: int| 0 <= i < pa.len() implies pa[i] == pb[i] by {
            assert(spec_page_name(id, a, ext)[id.len() + 6 + i] == pa[i]);
            assert(spec_page_name(id, b, ext)[id.len() + 6 + i] == pb[i]);
        }
        assert(pa =~= pb);
        lemma_padded3_injective(a, b);
        assert(false);
    }
}

/// An entry name is at most 27 characters longer than the identifier and
/// the extension together, for any page number a machine can count to.
pub proof fn lemma_page_name_len(id: Seq<char>, ext: Seq<char>, page: nat)
    requires
        page < 18446744073709551616,
    ensures
        spec_page_name(id, page, ext).len() <= id.len() + ext.len() + 27,
{
    reveal_strlit("-page-");
    reveal_strlit(".");
    lemma_pow10_20();
    lemma_decimal_len_le(page, 20);
    lemma_decimal_leading(page);
    assert(spec_padded3(page).len() <= 20);
}

} // verus!
