//! Rendering of the deployment template: literal, non-overlapping,
//! all-occurrences substitution of the three placeholder tokens `{host}`,
//! `{port}` and `{directory}`, performed left to right as `str::replace`
//! does.

use vstd::prelude::*;
use crate::config::Config;
use crate::digits::{dec_spec, u16_to_dec};

verus! {

/// The pattern `pat` occurs in `s` at position `i`.
pub open spec fn occurs_at(s: Seq<char>, pat: Seq<char>, i: int) -> bool {
    &&& 0 <= i
    &&& i + pat.len() <= s.len()
    &&& s.subrange(i, i + pat.len()) == pat
}

/// The pattern `pat` occurs somewhere in `s`.
pub open spec fn has_occurrence(s: Seq<char>, pat: Seq<char>) -> bool {
    exists|i: int| occurs_at(s, pat, i)
}

/// Every occurrence of `pat` in `s` replaced by `rep`, scanning left to
/// right and never rescanning replaced text.
pub open spec fn replace_spec(s: Seq<char>, pat: Seq<char>, rep: Seq<char>) -> Seq<char>
    recommends
        pat.len() > 0,
    decreases s.len(),
{
    if pat.len() == 0 || s.len() < pat.len() {
        s
    } else if s.subrange(0, pat.len() as int) == pat {
        rep + replace_spec(s.skip(pat.len() as int), pat, rep)
    } else {
        seq![s[0]] + replace_spec(s.skip(1), pat, rep)
    }
}

/// Whether `pat` occurs in `s` at position `i`.
pub(crate) fn has_pat_at(s: &str, i: usize, pat: &str) -> (r: bool)
    requires
        i <= s@.len(),
    ensures
        r == occurs_at(s@, pat@, i as int),
{
    let s_len = s.unicode_len();
    let pat_len = pat.unicode_len();
    if pat_len > s_len - i {
        return false;
    }
    let mut k: usize = 0;
    while k < pat_len
        invariant
            k <= pat_len,
            i + pat_len <= s_len,
            s_len == s@.len(),
            pat_len == pat@.len(),
            forall|j: int| 0 <= j < k ==> s@[i + j] == pat@[j],
        decreases pat_len - k,
    {
        if s.get_char(i + k) != pat.get_char(k) {
            assert(s@.subrange(i as int, i + pat@.len()) != pat@) by {
                assert(s@.subrange(i as int, i + pat@.len())[k as int] != pat@[k as int]);
            }
            return false;
        }
        k = k + 1;
    }
    proof {
        assert(s@.subrange(i as int, i + pat@.len()) =~= pat@);
    }
    true
}

/// Replaces every occurrence of `pat` in `s` by `rep`, left to right.
pub fn replace_all(s: &str, pat: &str, rep: &str) -> (r: String)
    requires
        pat@.len() > 0,
    ensures
        r@ == replace_spec(s@, pat@, rep@),
{
    let s_len = s.unicode_len();
    let pat_len = pat.unicode_len();
    let mut out = String::new();
    let mut i: usize = 0;
    proof {
        assert(s@.skip(0) =~= s@);
        assert(out@ + replace_spec(s@, pat@, rep@) =~= replace_spec(s@, pat@, rep@));
    }
    while i < s_len
        invariant
            i <= s_len,
            s_len == s@.len(),
            pat_len == pat@.len(),
            pat@.len() > 0,
            replace_spec(s@, pat@, rep@) == out@ + replace_spec(
                s@.skip(i as int),
                pat@,
                rep@,
            ),
        decreases s_len - i,
    {
        let ghost tail = s@.skip(i as int);
        let ghost out0 = out@;
        if has_pat_at(s, i, pat) {
            out.append(rep);
            proof {
                assert(tail.subrange(0, pat@.len() as int) =~= s@.subrange(
                    i as int,
                    i + pat@.len(),
                ));
                assert(tail.skip(pat@.len() as int) =~= s@.skip(i + pat@.len()));
                assert(replace_spec(tail, pat@, rep@) == rep@ + replace_spec(
                    s@.skip(i + pat@.len()),
                    pat@,
                    rep@,
                ));
                assert(out@ + replace_spec(s@.skip(i + pat@.len()), pat@, rep@) =~= out0
                    + replace_spec(tail, pat@, rep@));
            }
            i = i + pat_len;
        } else {
            let piece = s.substring_char(i, i + 1);
            out.append(piece);
            proof {
                assert(piece@ =~= seq![s@[i as int]]);
                if tail.len() < pat@.len() {
                    // The tail is shorter than the pattern: it is kept as it
                    // stands, one character of it moved out per step.
                    assert(replace_spec(tail, pat@, rep@) == tail);
                    assert(tail.skip(1) =~= s@.skip(i + 1));
                    assert(replace_spec(s@.skip(i + 1), pat@, rep@) == s@.skip(i + 1));
                    assert(tail =~= seq![s@[i as int]] + s@.skip(i + 1));
                } else {
                    assert(tail.subrange(0, pat@.len() as int) =~= s@.subrange(
                        i as int,
                        i + pat@.len(),
                    ));
                    assert(tail.subrange(0, pat@.len() as int) != pat@);
                    assert(tail[0] == s@[i as int]);
                    assert(tail.skip(1) =~= s@.skip(i + 1));
                    assert(replace_spec(tail, pat@, rep@) == seq![s@[i as int]] + replace_spec(
                        s@.skip(i + 1),
                        pat@,
                        rep@,
                    ));
                }
                assert(out@ + replace_spec(s@.skip(i + 1), pat@, rep@) =~= out0 + replace_spec(
                    tail,
                    pat@,
                    rep@,
                ));
            }
            i = i + 1;
        }
    }
    proof {
        assert(s@.skip(s_len as int) =~= Seq::<char>::empty());
        assert(replace_spec(Seq::<char>::empty(), pat@, rep@) == Seq::<char>::empty());
        assert(out@ + Seq::<char>::empty() =~= out@);
    }
    out
}

/// The rendered template: `{host}`, then `{port}`, then `{directory}`
/// substituted in sequence, the port in its canonical decimal text.
pub open spec fn render_spec(t: Seq<char>, host: Seq<char>, port: int, dir: Seq<char>) -> Seq<
    char,
> {
    replace_spec(
        replace_spec(replace_spec(t, "{host}"@, host), "{port}"@, dec_spec(port)),
        "{directory}"@,
        dir,
    )
}

/// Substitutes the three placeholder tokens of `template` with the host,
/// port and directory of `config`.
pub fn render_template(template: &str, config: &Config) -> (r: String)
    ensures
        r@ == render_spec(template@, config.host@, config.port as int, config.directory@),
{
    proof {
        reveal_strlit("{host}");
        reveal_strlit("{port}");
        reveal_strlit("{directory}");
    }
    let port_text = u16_to_dec(config.port);
    let t1 = replace_all(template, "{host}", config.host.as_str());
    let t2 = replace_all(t1.as_str(), "{port}", port_text.as_str());
    replace_all(t2.as_str(), "{directory}", config.directory.as_str())
}

/// Substitution leaves a text without any occurrence of the pattern as it
/// stands.
pub proof fn lemma_replace_no_occurrence(s: Seq<char>, pat: Seq<char>, rep: Seq<char>)
    requires
        pat.len() > 0,
        !has_occurrence(s, pat),
    ensures
        replace_spec(s, pat, rep) == s,
    decreases s.len(),
{
    if s.len() >= pat.len() {
        assert(!occurs_at(s, pat, 0));
        assert(s.subrange(0, pat.len() as int) != pat);
        assert forall|i: int| !occurs_at(s.skip(1), pat, i) by {
            if occurs_at(s.skip(1), pat, i) {
                assert(s.subrange(i + 1, i + 1 + pat.len()) =~= s.skip(1).subrange(
                    i,
                    i + pat.len(),
                ));
                assert(occurs_at(s, pat, i + 1));
            }
        }
        lemma_replace_no_occurrence(s.skip(1), pat, rep);
        assert(seq![s[0]] + s.skip(1) =~= s);
    }
}

/// Rendering is idempotent when no token reappears in the rendered text:
/// substituting the same values into the output once more changes nothing.
pub proof fn lemma_render_idempotent(t: Seq<char>, host: Seq<char>, port: int, dir: Seq<char>)
    requires
        !has_occurrence(render_spec(t, host, port, dir), "{host}"@),
        !has_occurrence(render_spec(t, host, port, dir), "{port}"@),
        !has_occurrence(render_spec(t, host, port, dir), "{directory}"@),
    ensures
        render_spec(render_spec(t, host, port, dir), host, port, dir) == render_spec(
            t,
            host,
            port,
            dir,
        ),
{
    reveal_strlit("{host}");
    reveal_strlit("{port}");
    reveal_strlit("{directory}");
    let r = render_spec(t, host, port, dir);
    lemma_replace_no_occurrence(r, "{host}"@, host);
    lemma_replace_no_occurrence(r, "{port}"@, dec_spec(port));
    lemma_replace_no_occurrence(r, "{directory}"@, dir);
}

} // verus!
