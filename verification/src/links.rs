//! Web links in a story's description.
//!
//! A link is a maximal run of non-blank characters that begins with
//! `http://` or `https://` and carries at least one character after the
//! scheme. The description is scanned left to right; runs do not overlap,
//! and scanning continues after each one found.

use vstd::prelude::*;
use vstd::string::StrSliceExecFns;
use vstd::string::StringExecFns;
use crate::gitref::char_whitespace;

verus! {

/// `http://` stands at `p`, with a non-blank character after it.
pub open spec fn http_at(s: Seq<char>, p: int) -> bool {
    &&& p + 7 < s.len()
    &&& s[p] == 'h'
    &&& s[p + 1] == 't'
    &&& s[p + 2] == 't'
    &&& s[p + 3] == 'p'
    &&& s[p + 4] == ':'
    &&& s[p + 5] == '/'
    &&& s[p + 6] == '/'
    &&& !char_whitespace(s[p + 7])
}

/// `https://` stands at `p`, with a non-blank character after it.
pub open spec fn https_at(s: Seq<char>, p: int) -> bool {
    &&& p + 8 < s.len()
    &&& s[p] == 'h'
    &&& s[p + 1] == 't'
    &&& s[p + 2] == 't'
    &&& s[p + 3] == 'p'
    &&& s[p + 4] == 's'
    &&& s[p + 5] == ':'
    &&& s[p + 6] == '/'
    &&& s[p + 7] == '/'
    &&& !char_whitespace(s[p + 8])
}

/// A link starts at `p`.
pub open spec fn link_at(s: Seq<char>, p: int) -> bool {
    http_at(s, p) || https_at(s, p)
}

/// Where the run of non-blank characters starting at `p` ends.
pub open spec fn run_end(s: Seq<char>, p: int) -> int
    decreases s.len() - p,
{
    if p < 0 || p >= s.len() || char_whitespace(s[p]) {
        p
    } else {
        run_end(s, p + 1)
    }
}

/// The links found from `p` on: at each link start, the whole non-blank
/// run is taken and scanning resumes after it; anywhere else the scan
/// moves on by one.
pub open spec fn links_from(s: Seq<char>, p: int) -> Seq<Seq<char>>
    decreases s.len() - p,
{
    if p < 0 || p >= s.len() {
        Seq::empty()
    } else if link_at(s, p) {
        let e = run_end(s, p);
        let next = if p < e <= s.len() {
            e
        } else {
            p + 1
        };
        seq![s.subrange(p, next)] + links_from(s, next)
    } else {
        links_from(s, p + 1)
    }
}

/// The links of a text, in order of appearance.
pub open spec fn links_model(s: Seq<char>) -> Seq<Seq<char>> {
    links_from(s, 0)
}

/// A run scanned to its first blank ends where [`run_end`] says.
proof fn lemma_run_end_at(s: Seq<char>, p: int, e: int)
    requires
        0 <= p <= e <= s.len(),
        forall|k: int| p <= k < e ==> !char_whitespace(#[trigger] s[k]),
        e < s.len() ==> char_whitespace(s[e]),
    ensures
        run_end(s, p) == e,
    decreases e - p,
{
    if p < e {
        lemma_run_end_at(s, p + 1, e);
    }
}

/// Whether a link starts at `p`, decided character by character.
fn link_starts_at(s: &str, p: usize, n: usize) -> (r: bool)
    requires
        n == s@.len(),
        p < n,
    ensures
        r == link_at(s@, p as int),
{
    if n - p < 5 {
        return false;
    }
    if !(s.get_char(p) == 'h' && s.get_char(p + 1) == 't' && s.get_char(p + 2) == 't' && s.get_char(
        p + 3,
    ) == 'p') {
        return false;
    }
    if s.get_char(p + 4) == ':' {
        if n - p >= 8 && s.get_char(p + 5) == '/' && s.get_char(p + 6) == '/'
            && !crate::gitref::is_whitespace_char(s.get_char(p + 7)) {
            return true;
        }
        return false;
    }
    if s.get_char(p + 4) == 's' {
        if n - p >= 9 && s.get_char(p + 5) == ':' && s.get_char(p + 6) == '/' && s.get_char(p + 7)
            == '/' && !crate::gitref::is_whitespace_char(s.get_char(p + 8)) {
            return true;
        }
        return false;
    }
    false
}

/// Collects the links of a text, in order of appearance.
#[verifier::loop_isolation(false)]
pub fn extract_links(text: &str) -> (r: Vec<String>)
    ensures
        r.deep_view() == links_model(text@),
{
    let s = text;
    let n = s.unicode_len();
    let mut out: Vec<String> = Vec::new();
    let mut p: usize = 0;
    while p < n
        invariant
            p <= n,
            n == s@.len(),
            links_model(s@) == out.deep_view() + links_from(s@, p as int),
        decreases n - p,
    {
        if link_starts_at(s, p, n) {
            let mut e: usize = p;
            while e < n && !crate::gitref::is_whitespace_char(s.get_char(e))
                invariant
                    p <= e <= n,
                    forall|k: int| p <= k < e ==> !char_whitespace(#[trigger] s@[k]),
                decreases n - e,
            {
                e += 1;
            }
            proof {
                lemma_run_end_at(s@, p as int, e as int);
                assert(e > p) by {
                    assert(!char_whitespace(s@[p as int]));
                }
            }
            let piece = s.substring_char(p, e);
            let ghost before = out.deep_view();
            out.push(String::from_str(piece));
            proof {
                assert(piece@ =~= s@.subrange(p as int, e as int));
                assert(out.deep_view() =~= before.push(s@.subrange(p as int, e as int)));
                assert(out.deep_view() + links_from(s@, e as int) =~= before + (seq![
                    s@.subrange(p as int, e as int),
                ] + links_from(s@, e as int)));
            }
            p = e;
        } else {
            p += 1;
        }
    }
    proof {
        assert(out.deep_view() + links_from(s@, p as int) =~= out.deep_view());
    }
    out
}

/// The links section appended under a story: a heading, then one bulleted
/// line per link.
pub fn links_section(links: &Vec<String>) -> (r: String)
    ensures
        r@ == "## Links\n"@ + crate::format::join_model(
            links.deep_view().map_values(|l: Seq<char>| "- "@ + l),
            "\n"@,
        ),
{
    let mut bullets: Vec<String> = Vec::new();
    let mut i: usize = 0;
    while i < links.len()
        invariant
            i <= links.len(),
            bullets.deep_view() == links.deep_view().take(i as int).map_values(
                |l: Seq<char>| "- "@ + l,
            ),
        decreases links.len() - i,
    {
        let mut b = String::from_str("- ");
        b.append(links[i].as_str());
        let ghost before = bullets.deep_view();
        bullets.push(b);
        proof {
            let dv = links.deep_view();
            assert(dv[i as int] == links@[i as int]@);
            assert(bullets.deep_view() =~= before.push("- "@ + dv[i as int]));
            assert(dv.take(i + 1).drop_last() =~= dv.take(i as int));
            assert(dv.take(i + 1).last() == dv[i as int]);
            assert(bullets.deep_view() =~= dv.take(i + 1).map_values(|l: Seq<char>| "- "@ + l));
        }
        i += 1;
    }
    proof {
        assert(links.deep_view().take(links.len() as int) =~= links.deep_view());
    }
    let joined = crate::format::join_texts(&bullets, "\n");
    let mut r = String::from_str("## Links\n");
    r.append(joined.as_str());
    r
}

} // verus!
