//! Story ids in git branch names.
//!
//! A branch made for a story carries the story's id as its last run of
//! digits (`some-feature-12345`). Reading the id back scans the name for
//! its last maximal run of numeric characters that reads as a `u64`;
//! the branch name itself is read out of the text of a `HEAD` reference.

use vstd::prelude::*;
use vstd::string::StrSliceExecFns;
use vstd::string::StringExecFns;

verus! {

/// Whether a character counts as numeric when runs of digits are cut out
/// of a branch name. A property of the character alone.
pub uninterp spec fn char_numeric(c: char) -> bool;

/// Relies on `char::is_numeric`: true exactly for the characters of the
/// Unicode general categories Nd, Nl and No. Within ASCII those are the
/// ten digits and nothing else, as the documentation states.
#[verifier::external_body]
fn is_numeric_char(c: char) -> (r: bool)
    ensures
        r == char_numeric(c),
        (48 <= c as u32 && c as u32 <= 57) ==> r,
        ((c as u32) < 128 && !(48 <= c as u32 && c as u32 <= 57)) ==> !r,
{
    c.is_numeric()
}

/// Whether a character counts as blank when a branch name is trimmed. A
/// property of the character alone.
pub uninterp spec fn char_whitespace(c: char) -> bool;

/// Relies on `char::is_whitespace`: true exactly for the characters with
/// the Unicode `White_Space` property. Within ASCII those are the space and
/// the five controls U+0009 to U+000D, as the documentation states.
#[verifier::external_body]
pub(crate) fn is_whitespace_char(c: char) -> (r: bool)
    ensures
        r == char_whitespace(c),
        (c as u32 == 32 || (9 <= c as u32 && c as u32 <= 13)) ==> r,
        ((c as u32) < 128 && !(c as u32 == 32 || (9 <= c as u32 && c as u32 <= 13))) ==> !r,
{
    c.is_whitespace()
}

/// A decimal digit.
pub open spec fn is_dec_digit(c: char) -> bool {
    48 <= c as int && c as int <= 57
}

/// The value of a decimal digit.
pub open spec fn digit_of(c: char) -> int {
    c as int - 48
}

/// Whether every character of the text is a decimal digit.
pub open spec fn all_dec_digits(s: Seq<char>) -> bool {
    forall|k: int| 0 <= k < s.len() ==> is_dec_digit(#[trigger] s[k])
}

/// The number a text of decimal digits names.
pub open spec fn digits_value(s: Seq<char>) -> int
    decreases s.len(),
{
    if s.len() == 0 {
        0
    } else {
        digits_value(s.drop_last()) * 10 + digit_of(s.last())
    }
}

/// What a maximal numeric run reads as: its value when it is made of
/// decimal digits only and fits a `u64`, nothing otherwise.
pub open spec fn run_value(s: Seq<char>) -> Option<u64> {
    if s.len() > 0 && all_dec_digits(s) && digits_value(s) <= u64::MAX {
        Some(digits_value(s) as u64)
    } else {
        None
    }
}

/// Scans the text right to left; `run` holds the numeric characters read so
/// far of the run being collected. At each boundary the collected run is
/// read as a number; the first readable run from the right answers.
pub open spec fn extract_from(s: Seq<char>, run: Seq<char>) -> Option<u64>
    decreases s.len(),
{
    if s.len() == 0 {
        run_value(run)
    } else if char_numeric(s.last()) {
        extract_from(s.drop_last(), seq![s.last()] + run)
    } else {
        match run_value(run) {
            Some(v) => Some(v),
            None => extract_from(s.drop_last(), Seq::empty()),
        }
    }
}

/// The id a branch name carries: of its maximal runs of numeric
/// characters, the last one that reads as a `u64`.
pub open spec fn extract_id_model(s: Seq<char>) -> Option<u64> {
    extract_from(s, Seq::empty())
}

/// The value of ever more digits never shrinks.
proof fn lemma_digits_value_grows(s: Seq<char>, k: int)
    requires
        all_dec_digits(s),
        0 <= k <= s.len(),
    ensures
        0 <= digits_value(s.take(k)),
        digits_value(s.take(k)) <= digits_value(s),
    decreases s.len() - k,
{
    if k == s.len() {
        assert(s.take(k) =~= s);
        lemma_digits_value_nonneg(s);
    } else {
        lemma_digits_value_grows(s, k + 1);
        assert(s.take(k + 1).drop_last() =~= s.take(k));
        assert(s.take(k + 1).last() == s[k]);
        lemma_digits_value_nonneg(s.take(k));
    }
}

/// A text of decimal digits names no negative number.
proof fn lemma_digits_value_nonneg(s: Seq<char>)
    requires
        all_dec_digits(s),
    ensures
        digits_value(s) >= 0,
    decreases s.len(),
{
    if s.len() > 0 {
        assert(all_dec_digits(s.drop_last())) by {
            assert(forall|k: int| 0 <= k < s.len() - 1 ==> s.drop_last()[k] == s[k]);
        }
        lemma_digits_value_nonneg(s.drop_last());
    }
}

/// Collapses one whole numeric run: scanning a text whose last `l`
/// characters are numeric and end a maximal run reads that run, and on
/// failure goes on left of the boundary.
proof fn lemma_extract_peel_run(s: Seq<char>, run: Seq<char>, l: int)
    requires
        0 <= l <= s.len(),
        forall|k: int| s.len() - l <= k < s.len() ==> char_numeric(#[trigger] s[k]),
        l < s.len() ==> !char_numeric(s[s.len() - l - 1]),
    ensures
        extract_from(s, run) == (match run_value(s.skip(s.len() - l) + run) {
            Some(v) => Some(v),
            None => if l == s.len() {
                None
            } else {
                extract_from(s.take(s.len() - l - 1), Seq::empty())
            },
        }),
    decreases l,
{
    if l == 0 {
        assert(s.skip(s.len() as int) + run =~= run);
        if s.len() == 0 {
            assert(run_value(run) is None ==> extract_from(s, run) is None);
        } else {
            assert(s.take(s.len() - 1) =~= s.drop_last());
        }
    } else {
        let rest = s.drop_last();
        let run2 = seq![s.last()] + run;
        assert(extract_from(s, run) == extract_from(rest, run2));
        assert(forall|k: int|
            rest.len() - (l - 1) <= k < rest.len() ==> char_numeric(#[trigger] rest[k]));
        if l - 1 < rest.len() {
            assert(rest[rest.len() - (l - 1) - 1] == s[s.len() - l - 1]);
        }
        lemma_extract_peel_run(rest, run2, l - 1);
        assert(rest.skip(rest.len() - (l - 1)) + run2 =~= s.skip(s.len() - l) + run);
        if l < s.len() {
            assert(rest.take(rest.len() - (l - 1) - 1) =~= s.take(s.len() - l - 1));
        }
    }
}

/// Reads a branch name's story id: of its maximal runs of numeric
/// characters, the last one that reads as a `u64`. A run with a character
/// that is no decimal digit, or one naming a number too large, is passed
/// over.
#[verifier::loop_isolation(false)]
pub fn extract_id(branch_name_text: &str) -> (r: Option<u64>)
    ensures
        r == extract_id_model(branch_name_text@),
{
    let s = branch_name_text;
    let n = s.unicode_len();
    let mut i: usize = n;
    proof {
        assert(s@.take(n as int) =~= s@);
    }
    while i > 0
        invariant
            i <= n,
            n == s@.len(),
            extract_id_model(s@) == extract_from(s@.take(i as int), Seq::empty()),
        decreases i,
    {
        let c = s.get_char(i - 1);
        if !is_numeric_char(c) {
            proof {
                assert(s@.take(i as int).last() == s@[i - 1]);
                assert(s@.take(i as int).drop_last() =~= s@.take(i - 1));
            }
            i -= 1;
        } else {
            let mut j: usize = i - 1;
            while j > 0 && is_numeric_char(s.get_char(j - 1))
                invariant
                    j < i <= n,
                    n == s@.len(),
                    forall|k: int| j <= k < i ==> char_numeric(#[trigger] s@[k]),
                decreases j,
            {
                j -= 1;
            }
            let ghost t = s@.take(i as int);
            let ghost l = i - j;
            let ghost run = s@.subrange(j as int, i as int);
            proof {
                assert(forall|k: int| t.len() - l <= k < t.len() ==> char_numeric(#[trigger] t[k]));
                if l < t.len() {
                    assert(t[t.len() - l - 1] == s@[j - 1]);
                }
                lemma_extract_peel_run(t, Seq::empty(), l as int);
                assert(t.skip(t.len() - l) + Seq::<char>::empty() =~= run);
            }
            let mut val: u64 = 0;
            let mut ok = true;
            let mut k: usize = j;
            while k < i && ok
                invariant
                    j <= k <= i <= n,
                    n == s@.len(),
                    run == s@.subrange(j as int, i as int),
                    ok ==> all_dec_digits(run.take(k - j)),
                    ok ==> val == digits_value(run.take(k - j)),
                    !ok ==> run_value(run) is None,
                decreases i - k,
            {
                let c = s.get_char(k);
                assert(run[k - j] == s@[k as int]);
                let u = c as u32;
                if u < 48 || u > 57 {
                    proof {
                        assert(!is_dec_digit(run[k - j]));
                    }
                    ok = false;
                } else {
                    let d = (u - 48) as u64;
                    let stepped = match val.checked_mul(10) {
                        Some(m) => m.checked_add(d),
                        None => None,
                    };
                    proof {
                        assert(run.take(k - j + 1).drop_last() =~= run.take(k - j));
                        assert(run.take(k - j + 1).last() == run[k - j]);
                    }
                    match stepped {
                        Some(v) => {
                            val = v;
                            proof {
                                assert(all_dec_digits(run.take(k - j + 1)));
                                assert(val == digits_value(run.take(k - j + 1)));
                            }
                        },
                        None => {
                            proof {
                                assert(digits_value(run.take(k - j + 1)) > u64::MAX);
                                if all_dec_digits(run) {
                                    lemma_digits_value_grows(run, k - j + 1);
                                }
                            }
                            ok = false;
                        },
                    }
                }
                k += 1;
            }
            if ok {
                proof {
                    assert(run.take(run.len() as int) =~= run);
                    assert(run_value(run) == Some(val));
                }
                return Some(val);
            } else if j == 0 {
                proof {
                    assert(l == t.len());
                }
                return None;
            } else {
                proof {
                    assert(t.take(t.len() - l - 1) =~= s@.take(j - 1));
                }
                i = j - 1;
            }
        }
    }
    proof {
        assert(s@.take(0) =~= Seq::<char>::empty());
    }
    None
}

/// The text with its leading blanks dropped.
pub open spec fn drop_leading_ws(s: Seq<char>) -> Seq<char>
    decreases s.len(),
{
    if s.len() > 0 && char_whitespace(s[0]) {
        drop_leading_ws(s.drop_first())
    } else {
        s
    }
}

/// The text with its trailing blanks dropped.
pub open spec fn drop_trailing_ws(s: Seq<char>) -> Seq<char>
    decreases s.len(),
{
    if s.len() > 0 && char_whitespace(s.last()) {
        drop_trailing_ws(s.drop_last())
    } else {
        s
    }
}

/// The text with blanks dropped at both ends.
pub open spec fn trim_model(s: Seq<char>) -> Seq<char> {
    drop_trailing_ws(drop_leading_ws(s))
}

/// Dropping leading blanks skips exactly the blank prefix.
proof fn lemma_drop_leading_ws_at(s: Seq<char>, a: int)
    requires
        0 <= a <= s.len(),
        forall|k: int| 0 <= k < a ==> char_whitespace(#[trigger] s[k]),
        a < s.len() ==> !char_whitespace(s[a]),
    ensures
        drop_leading_ws(s) == s.skip(a),
    decreases a,
{
    if a == 0 {
        assert(s.skip(0) =~= s);
    } else {
        let rest = s.drop_first();
        assert(forall|k: int| 0 <= k < a - 1 ==> char_whitespace(#[trigger] rest[k]));
        if a - 1 < rest.len() {
            assert(rest[a - 1] == s[a]);
        }
        lemma_drop_leading_ws_at(rest, a - 1);
        assert(rest.skip(a - 1) =~= s.skip(a));
    }
}

/// Dropping trailing blanks cuts exactly the blank suffix.
proof fn lemma_drop_trailing_ws_at(s: Seq<char>, b: int)
    requires
        0 <= b <= s.len(),
        forall|k: int| b <= k < s.len() ==> char_whitespace(#[trigger] s[k]),
        b > 0 ==> !char_whitespace(s[b - 1]),
    ensures
        drop_trailing_ws(s) == s.take(b),
    decreases s.len() - b,
{
    if b == s.len() {
        assert(s.take(b) =~= s);
    } else {
        let rest = s.drop_last();
        assert(forall|k: int| b <= k < rest.len() ==> char_whitespace(#[trigger] rest[k]));
        lemma_drop_trailing_ws_at(rest, b);
        assert(rest.take(b) =~= s.take(b));
    }
}

/// The text with blanks dropped at both ends.
#[verifier::loop_isolation(false)]
pub fn trim_text(s: &str) -> (r: String)
    ensures
        r@ == trim_model(s@),
{
    let n = s.unicode_len();
    let mut a: usize = 0;
    while a < n && is_whitespace_char(s.get_char(a))
        invariant
            a <= n,
            forall|k: int| 0 <= k < a ==> char_whitespace(#[trigger] s@[k]),
        decreases n - a,
    {
        a += 1;
    }
    proof {
        lemma_drop_leading_ws_at(s@, a as int);
    }
    let mut b: usize = n;
    while b > a && is_whitespace_char(s.get_char(b - 1))
        invariant
            a <= b <= n,
            forall|k: int| b <= k < n ==> char_whitespace(#[trigger] s@[k]),
        decreases b,
    {
        b -= 1;
    }
    let ghost mid = s@.skip(a as int);
    proof {
        assert(forall|k: int| b - a <= k < mid.len() ==> char_whitespace(#[trigger] mid[k]));
        if b > a {
            assert(mid[b - a - 1] == s@[b - 1]);
        }
        lemma_drop_trailing_ws_at(mid, b - a);
    }
    let piece = s.substring_char(a, b);
    proof {
        assert(piece@ =~= mid.take(b - a));
    }
    String::from_str(piece)
}

/// The branch a `HEAD` text names: what follows the `ref: refs/heads/`
/// prefix, trimmed of blanks; nothing where the prefix is absent.
pub open spec fn branch_name_model(head: Seq<char>) -> Option<Seq<char>> {
    if head.len() >= 16 && head.take(16) == "ref: refs/heads/"@ {
        Some(trim_model(head.skip(16)))
    } else {
        None
    }
}

/// Reads the branch a `HEAD` text names.
#[verifier::loop_isolation(false)]
pub fn branch_name(head_contents: &str) -> (r: Option<String>)
    ensures
        r is Some <==> branch_name_model(head_contents@) is Some,
        r is Some ==> r->0@ == branch_name_model(head_contents@)->0,
{
    let s = head_contents;
    let n = s.unicode_len();
    let prefix = "ref: refs/heads/";
    proof {
        reveal_strlit("ref: refs/heads/");
    }
    if n < 16 {
        return None;
    }
    let mut k: usize = 0;
    while k < 16
        invariant
            k <= 16,
            n == s@.len(),
            16 <= n,
            forall|m: int| 0 <= m < k ==> s@[m] == prefix@[m],
        decreases 16 - k,
    {
        if s.get_char(k) != prefix.get_char(k) {
            proof {
                assert(s@.take(16)[k as int] != "ref: refs/heads/"@[k as int]);
            }
            return None;
        }
        k += 1;
    }
    proof {
        assert(s@.take(16) =~= "ref: refs/heads/"@);
    }
    let tail = s.substring_char(16, n);
    proof {
        assert(tail@ =~= s@.skip(16));
    }
    Some(trim_text(tail))
}

/// The character a decimal digit prints as.
pub open spec fn digit_char(d: int) -> char {
    if d == 0 {
        '0'
    } else if d == 1 {
        '1'
    } else if d == 2 {
        '2'
    } else if d == 3 {
        '3'
    } else if d == 4 {
        '4'
    } else if d == 5 {
        '5'
    } else if d == 6 {
        '6'
    } else if d == 7 {
        '7'
    } else if d == 8 {
        '8'
    } else {
        '9'
    }
}

/// The decimal text of a number: its digits, highest first, no sign and no
/// leading zero.
pub open spec fn dec_str(v: int) -> Seq<char>
    recommends
        v >= 0,
    decreases v,
{
    if v < 10 {
        seq![digit_char(v)]
    } else {
        dec_str(v / 10).push(digit_char(v % 10))
    }
}

/// One digit as text.
fn digit_str(d: u64) -> (r: String)
    requires
        d < 10,
    ensures
        r@ == seq![digit_char(d as int)],
{
    let r = match d {
        0 => String::from_str("0"),
        1 => String::from_str("1"),
        2 => String::from_str("2"),
        3 => String::from_str("3"),
        4 => String::from_str("4"),
        5 => String::from_str("5"),
        6 => String::from_str("6"),
        7 => String::from_str("7"),
        8 => String::from_str("8"),
        _ => String::from_str("9"),
    };
    proof {
        reveal_strlit("0");
        reveal_strlit("1");
        reveal_strlit("2");
        reveal_strlit("3");
        reveal_strlit("4");
        reveal_strlit("5");
        reveal_strlit("6");
        reveal_strlit("7");
        reveal_strlit("8");
        reveal_strlit("9");
        assert(r@ =~= seq![digit_char(d as int)]);
    }
    r
}

/// Prints a number in decimal.
pub fn u64_to_string(v: u64) -> (r: String)
    ensures
        r@ == dec_str(v as int),
    decreases v,
{
    if v < 10 {
        digit_str(v)
    } else {
        let mut r = u64_to_string(v / 10);
        let last = digit_str(v % 10);
        r.append(last.as_str());
        proof {
            assert(r@ =~= dec_str((v / 10) as int).push(digit_char((v % 10) as int)));
        }
        r
    }
}

/// The slug that the branch-name text reduces to: lowercase ASCII letters
/// and digits joined by `-`, cut to at most 40 characters. A function of
/// the text alone.
pub uninterp spec fn slug40_of(s: Seq<char>) -> Seq<char>;

/// Relies on `slugify::slugify(text, "", "-", Some(40))`: the slug of the
/// text, a function of the text alone; after the cut at 40 it is never
/// longer than that.
#[verifier::external_body]
fn slug40(s: &str) -> (r: String)
    ensures
        r@ == slug40_of(s@),
        r@.len() <= 40,
{
    slugify::slugify(s, "", "-", Some(40))
}

/// What the branch name for a story is sluggified from: the caller's own
/// prefix where one was given, the story's name otherwise.
pub fn branch_name_source(custom: &Option<String>, story_name: &str) -> (r: String)
    ensures
        custom is Some ==> r@ == "-"@ + custom->0@,
        custom is None ==> r@ == story_name@,
{
    match custom {
        Some(v) => {
            let mut r = String::from_str("-");
            r.append(v.as_str());
            r
        },
        None => String::from_str(story_name),
    }
}

/// The branch name made for a story: the slug of the name source, then `-`
/// and the story's id.
pub fn story_branch_name(name_source: &str, story_id: u64) -> (r: String)
    ensures
        r@ == slug40_of(name_source@) + "-"@ + dec_str(story_id as int),
{
    let mut r = slug40(name_source);
    r.append("-");
    let id = u64_to_string(story_id);
    r.append(id.as_str());
    r
}

/// Reads a story id out of free text: a bare id, a `#`-prefixed one, or a
/// story URL all carry it as their last readable run of digits. The error
/// carries the text that held none.
pub fn parse_story_id(s: &str) -> (r: Result<u64, String>)
    ensures
        extract_id_model(s@) is Some ==> r == Ok::<u64, String>(extract_id_model(s@)->0),
        extract_id_model(s@) is None ==> r is Err && r->Err_0@ == "Could not parse story id from "@
            + s@,
{
    match extract_id(s) {
        Some(v) => Ok(v),
        None => {
            let mut msg = String::from_str("Could not parse story id from ");
            msg.append(s);
            Err(msg)
        },
    }
}

} // verus!
