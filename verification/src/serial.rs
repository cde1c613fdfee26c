//! The canonical text form of a configuration, and its parser.
//!
//! The form is one object with the six fields in fixed order and the port in
//! canonical decimal. String fields are carried verbatim, so a configuration
//! is representable exactly when none of them holds a quote or a backslash;
//! one that is not fails to serialize. The parser accepts exactly the texts
//! the serializer produces, which makes the pair a round trip.

use vstd::prelude::*;
use crate::config::Config;
use crate::digits::{
    char_val, dec_spec, is_digit_char, lemma_dec_all_digits, lemma_dec_len5, lemma_val_dec,
    lemma_dec_injective, lemma_val_lt_100000, u16_to_dec, val_spec,
};
use crate::error::{ContainerError, ErrorKind};

verus! {

/// `s` can stand verbatim inside a quoted field: no quote, no backslash.
pub open spec fn plain(s: Seq<char>) -> bool {
    forall|i: int| 0 <= i < s.len() ==> s[i] != '"' && s[i] != '\\'
}

/// Every string field of `c` can stand verbatim in the canonical form.
pub open spec fn can_serialize(c: Config) -> bool {
    &&& plain(c.host@)
    &&& plain(c.directory@)
    &&& plain(c.filepath_403@)
    &&& plain(c.filepath_404@)
    &&& plain(c.filepath_500@)
}

/// The canonical text of `c`.
pub open spec fn serial_spec(c: Config) -> Seq<char> {
    "{\"host\":\""@ + c.host@ + "\",\"port\":"@ + dec_spec(c.port as int) + ",\"directory\":\""@
        + c.directory@ + "\",\"filepath_403\":\""@ + c.filepath_403@ + "\",\"filepath_404\":\""@
        + c.filepath_404@ + "\",\"filepath_500\":\""@ + c.filepath_500@ + "\"}"@
}

/// `c` is what the canonical text `s` denotes.
pub open spec fn renders_to(c: Config, s: Seq<char>) -> bool {
    can_serialize(c) && serial_spec(c) == s
}

/// Whether every character of `s` can stand verbatim in a quoted field.
fn is_plain(s: &str) -> (r: bool)
    ensures
        r == plain(s@),
{
    let len = s.unicode_len();
    let mut i: usize = 0;
    while i < len
        invariant
            i <= len,
            len == s@.len(),
            forall|k: int| 0 <= k < i ==> s@[k] != '"' && s@[k] != '\\',
        decreases len - i,
    {
        let c = s.get_char(i);
        if c == '"' || c == '\\' {
            return false;
        }
        i = i + 1;
    }
    true
}

/// Serializes `config` to its canonical text. Fails with the serialization
/// error exactly when some string field cannot stand verbatim in the form.
pub fn config_to_string(config: &Config) -> (r: Result<String, ContainerError>)
    ensures
        match r {
            Ok(s) => can_serialize(*config) && s@ == serial_spec(*config),
            Err(e) => !can_serialize(*config) && e.kind == ErrorKind::Serialization,
        },
{
    if !(is_plain(config.host.as_str()) && is_plain(config.directory.as_str()) && is_plain(
        config.filepath_403.as_str(),
    ) && is_plain(config.filepath_404.as_str()) && is_plain(config.filepath_500.as_str())) {
        return Err(
            ContainerError::new(ErrorKind::Serialization, "failed to convert config into string"),
        );
    }
    let port_text = u16_to_dec(config.port);
    let mut out: String = "{\"host\":\"".to_owned();
    out.append(config.host.as_str());
    out.append("\",\"port\":");
    out.append(port_text.as_str());
    out.append(",\"directory\":\"");
    out.append(config.directory.as_str());
    out.append("\",\"filepath_403\":\"");
    out.append(config.filepath_403.as_str());
    out.append("\",\"filepath_404\":\"");
    out.append(config.filepath_404.as_str());
    out.append("\",\"filepath_500\":\"");
    out.append(config.filepath_500.as_str());
    out.append("\"}");
    proof {
        assert(out@ =~= serial_spec(*config));
    }
    Ok(out)
}

/// Position `j` ends the quoted field that begins at `from`: the text
/// between them is plain and a quote stands at `j`.
pub open spec fn field_end(s: Seq<char>, from: int, j: int) -> bool {
    &&& 0 <= from <= j < s.len()
    &&& s[j] == '"'
    &&& plain(s.subrange(from, j))
}

/// Position `j` ends the run of digit characters that begins at `from`.
pub open spec fn digit_run_end(s: Seq<char>, from: int, j: int) -> bool {
    &&& 0 <= from <= j <= s.len()
    &&& (forall|k: int| from <= k < j ==> is_digit_char(#[trigger] s[k]))
    &&& (j == s.len() || !is_digit_char(s[j]))
}

/// A quoted field that begins at a position ends at one position only.
proof fn lemma_field_end_unique(s: Seq<char>, from: int, j1: int, j2: int)
    requires
        field_end(s, from, j1),
        field_end(s, from, j2),
    ensures
        j1 == j2,
{
    if j1 < j2 {
        assert(s.subrange(from, j2)[j1 - from] == s[j1]);
    }
    if j2 < j1 {
        assert(s.subrange(from, j1)[j2 - from] == s[j2]);
    }
}

/// A run of digit characters that begins at a position ends at one position
/// only.
proof fn lemma_digit_run_unique(s: Seq<char>, from: int, j1: int, j2: int)
    requires
        digit_run_end(s, from, j1),
        digit_run_end(s, from, j2),
    ensures
        j1 == j2,
{
    if j1 < j2 {
        assert(is_digit_char(s[j1]));
    }
    if j2 < j1 {
        assert(is_digit_char(s[j2]));
    }
}

/// Consumes the literal `lit` at position `i` of `s`.
fn eat_lit(s: &str, i: usize, lit: &str) -> (r: Option<usize>)
    requires
        i <= s@.len(),
    ensures
        match r {
            Some(j) => j == i + lit@.len() && i <= j <= s@.len() && s@.subrange(
                i as int,
                j as int,
            ) == lit@,
            None => !(i + lit@.len() <= s@.len() && s@.subrange(i as int, i + lit@.len())
                == lit@),
        },
{
    let s_len = s.unicode_len();
    let lit_len = lit.unicode_len();
    if crate::template::has_pat_at(s, i, lit) {
        Some(i + lit_len)
    } else {
        None
    }
}

/// Finds the end of the quoted field that begins at `from`: the next quote,
/// unless a backslash or the end of `s` comes first.
fn scan_field(s: &str, from: usize) -> (r: Option<usize>)
    requires
        from <= s@.len(),
    ensures
        match r {
            Some(j) => field_end(s@, from as int, j as int),
            None => forall|j: int| !field_end(s@, from as int, j),
        },
{
    let len = s.unicode_len();
    let mut i = from;
    while i < len
        invariant
            from <= i <= len,
            len == s@.len(),
            forall|k: int| from <= k < i ==> s@[k] != '"' && s@[k] != '\\',
        decreases len - i,
    {
        let c = s.get_char(i);
        if c == '"' {
            proof {
                assert forall|t: int| 0 <= t < i - from implies s@.subrange(from as int, i as int)[t]
                    != '"' && s@.subrange(from as int, i as int)[t] != '\\' by {
                    assert(s@.subrange(from as int, i as int)[t] == s@[from + t]);
                }
            }
            return Some(i);
        }
        if c == '\\' {
            proof {
                assert forall|j: int| !field_end(s@, from as int, j) by {
                    if field_end(s@, from as int, j) {
                        if j < i as int {
                            assert(s@[j] != '"');
                        } else {
                            assert(s@.subrange(from as int, j)[i - from] == s@[i as int]);
                        }
                    }
                }
            }
            return None;
        }
        i = i + 1;
    }
    proof {
        assert forall|j: int| !field_end(s@, from as int, j) by {
            if field_end(s@, from as int, j) {
                assert(s@[j] != '"');
            }
        }
    }
    None
}

/// Finds where the run of digit characters that begins at `from` ends.
fn scan_digits_end(s: &str, from: usize) -> (j: usize)
    requires
        from <= s@.len(),
    ensures
        digit_run_end(s@, from as int, j as int),
        from <= j <= s@.len(),
{
    let len = s.unicode_len();
    let mut i = from;
    while i < len
        invariant
            from <= i <= len,
            len == s@.len(),
            forall|k: int| from <= k < i ==> is_digit_char(#[trigger] s@[k]),
        decreases len - i,
    {
        let c = s.get_char(i);
        if !(c == '0' || c == '1' || c == '2' || c == '3' || c == '4' || c == '5' || c == '6' || c
            == '7' || c == '8' || c == '9') {
            return i;
        }
        i = i + 1;
    }
    i
}

/// The value of one digit character.
fn digit_value(c: char) -> (d: u32)
    requires
        is_digit_char(c),
    ensures
        d == char_val(c),
{
    if c == '0' { 0 }
    else if c == '1' { 1 }
    else if c == '2' { 2 }
    else if c == '3' { 3 }
    else if c == '4' { 4 }
    else if c == '5' { 5 }
    else if c == '6' { 6 }
    else if c == '7' { 7 }
    else if c == '8' { 8 }
    else { 9 }
}

/// The position after the host field in the canonical text of `c`.
spec fn hb(c: Config) -> int {
    9 + c.host@.len() as int
}

/// The position where the port digits of the canonical text of `c` begin.
spec fn pb(c: Config) -> int {
    hb(c) + 9
}

/// The position after the port digits.
spec fn pe(c: Config) -> int {
    pb(c) + dec_spec(c.port as int).len() as int
}

/// The position where the directory field begins.
spec fn db(c: Config) -> int {
    pe(c) + 14
}

/// The position after the directory field.
spec fn de(c: Config) -> int {
    db(c) + c.directory@.len() as int
}

/// The position where the `filepath_403` field begins.
spec fn f3b(c: Config) -> int {
    de(c) + 18
}

/// The position after the `filepath_403` field.
spec fn f3e(c: Config) -> int {
    f3b(c) + c.filepath_403@.len() as int
}

/// The position where the `filepath_404` field begins.
spec fn f4b(c: Config) -> int {
    f3e(c) + 18
}

/// The position after the `filepath_404` field.
spec fn f4e(c: Config) -> int {
    f4b(c) + c.filepath_404@.len() as int
}

/// The position where the `filepath_500` field begins.
spec fn f5b(c: Config) -> int {
    f4e(c) + 18
}

/// The position after the `filepath_500` field.
spec fn f5e(c: Config) -> int {
    f5b(c) + c.filepath_500@.len() as int
}

/// Where each piece of the canonical text of `c` stands in it.
#[verifier::rlimit(50)]
proof fn lemma_canonical_layout(c: Config, s: Seq<char>)
    requires
        renders_to(c, s),
    ensures
        s.len() == f5e(c) + 2,
        s.subrange(0, 9) == "{\"host\":\""@,
        s.subrange(9, hb(c)) == c.host@,
        field_end(s, 9, hb(c)),
        s.subrange(hb(c), pb(c)) == "\",\"port\":"@,
        s.subrange(pb(c), pe(c)) == dec_spec(c.port as int),
        digit_run_end(s, pb(c), pe(c)),
        s.subrange(pe(c), db(c)) == ",\"directory\":\""@,
        s.subrange(db(c), de(c)) == c.directory@,
        field_end(s, db(c), de(c)),
        s.subrange(de(c), f3b(c)) == "\",\"filepath_403\":\""@,
        s.subrange(f3b(c), f3e(c)) == c.filepath_403@,
        field_end(s, f3b(c), f3e(c)),
        s.subrange(f3e(c), f4b(c)) == "\",\"filepath_404\":\""@,
        s.subrange(f4b(c), f4e(c)) == c.filepath_404@,
        field_end(s, f4b(c), f4e(c)),
        s.subrange(f4e(c), f5b(c)) == "\",\"filepath_500\":\""@,
        s.subrange(f5b(c), f5e(c)) == c.filepath_500@,
        field_end(s, f5b(c), f5e(c)),
        s.subrange(f5e(c), f5e(c) + 2) == "\"}"@,
{
    reveal_strlit("{\"host\":\"");
    reveal_strlit("\",\"port\":");
    reveal_strlit(",\"directory\":\"");
    reveal_strlit("\",\"filepath_403\":\"");
    reveal_strlit("\",\"filepath_404\":\"");
    reveal_strlit("\",\"filepath_500\":\"");
    reveal_strlit("\"}");
    lemma_dec_all_digits(c.port as int);
    assert(s.subrange(0, 9) =~= "{\"host\":\""@);
    assert(s.subrange(9, hb(c)) =~= c.host@);
    assert(s.subrange(hb(c), pb(c)) =~= "\",\"port\":"@);
    assert(s.subrange(pb(c), pe(c)) =~= dec_spec(c.port as int));
    assert(s.subrange(pe(c), db(c)) =~= ",\"directory\":\""@);
    assert(s.subrange(db(c), de(c)) =~= c.directory@);
    assert(s.subrange(de(c), f3b(c)) =~= "\",\"filepath_403\":\""@);
    assert(s.subrange(f3b(c), f3e(c)) =~= c.filepath_403@);
    assert(s.subrange(f3e(c), f4b(c)) =~= "\",\"filepath_404\":\""@);
    assert(s.subrange(f4b(c), f4e(c)) =~= c.filepath_404@);
    assert(s.subrange(f4e(c), f5b(c)) =~= "\",\"filepath_500\":\""@);
    assert(s.subrange(f5b(c), f5e(c)) =~= c.filepath_500@);
    assert(s.subrange(f5e(c), f5e(c) + 2) =~= "\"}"@);
    assert(s[hb(c)] == s.subrange(hb(c), pb(c))[0]);
    assert(s[de(c)] == s.subrange(de(c), f3b(c))[0]);
    assert(s[f3e(c)] == s.subrange(f3e(c), f4b(c))[0]);
    assert(s[f4e(c)] == s.subrange(f4e(c), f5b(c))[0]);
    assert(s[f5e(c)] == s.subrange(f5e(c), f5e(c) + 2)[0]);
    assert forall|k: int| pb(c) <= k < pe(c) implies is_digit_char(#[trigger] s[k]) by {
        assert(s[k] == s.subrange(pb(c), pe(c))[k - pb(c)]);
    }
    assert(s[pe(c)] == s.subrange(pe(c), db(c))[0]);
    assert(!is_digit_char(','));
}

/// Parses the canonical text form: returns the configuration a canonical
/// text denotes, and nothing on any other input. It accepts exactly what
/// `config_to_string` produces, which makes writing and reading back a
/// round trip.
#[verifier::rlimit(50)]
pub fn parse_config(s: &str) -> (r: Option<Config>)
    ensures
        match r {
            Some(c) => renders_to(c, s@),
            None => forall|c: Config| !renders_to(c, s@),
        },
{
    proof {
        reveal_strlit("{\"host\":\"");
        reveal_strlit("\",\"port\":");
        reveal_strlit(",\"directory\":\"");
        reveal_strlit("\",\"filepath_403\":\"");
        reveal_strlit("\",\"filepath_404\":\"");
        reveal_strlit("\",\"filepath_500\":\"");
        reveal_strlit("\"}");
    }
    let a0 = match eat_lit(s, 0, "{\"host\":\"") {
        Some(j) => j,
        None => {
            proof {
                assert forall|c: Config| !renders_to(c, s@) by {
                    if renders_to(c, s@) {
                        lemma_canonical_layout(c, s@);
                    }
                }
            }
            return None;
        },
    };
    let j1 = match scan_field(s, a0) {
        Some(j) => j,
        None => {
            proof {
                assert forall|c: Config| !renders_to(c, s@) by {
                    if renders_to(c, s@) {
                        lemma_canonical_layout(c, s@);
                        assert(field_end(s@, a0 as int, hb(c)));
                    }
                }
            }
            return None;
        },
    };
    let host = s.substring_char(a0, j1).to_owned();
    let a1 = match eat_lit(s, j1, "\",\"port\":") {
        Some(j) => j,
        None => {
            proof {
                assert forall|c: Config| !renders_to(c, s@) by {
                    if renders_to(c, s@) {
                        lemma_canonical_layout(c, s@);
                        lemma_field_end_unique(s@, 9, j1 as int, hb(c));
                    }
                }
            }
            return None;
        },
    };
    let j2 = scan_digits_end(s, a1);
    if j2 - a1 > 5 {
        proof {
            assert forall|c: Config| !renders_to(c, s@) by {
                if renders_to(c, s@) {
                    lemma_canonical_layout(c, s@);
                    lemma_field_end_unique(s@, 9, j1 as int, hb(c));
                    lemma_digit_run_unique(s@, a1 as int, j2 as int, pe(c));
                    lemma_dec_len5(c.port as int);
                }
            }
        }
        return None;
    }
    let ghost run = s@.subrange(a1 as int, j2 as int);
    let mut acc: u32 = 0;
    let mut k = a1;
    while k < j2
        invariant
            a1 <= k <= j2 <= s@.len(),
            j2 - a1 <= 5,
            digit_run_end(s@, a1 as int, j2 as int),
            acc == val_spec(s@.subrange(a1 as int, k as int)),
        decreases j2 - k,
    {
        let c = s.get_char(k);
        let d = digit_value(c);
        proof {
            let seg = s@.subrange(a1 as int, k as int);
            let seg2 = s@.subrange(a1 as int, k as int + 1);
            assert(seg2.drop_last() =~= seg);
            assert(seg2.last() == s@[k as int]);
            assert forall|t: int| 0 <= t < seg.len() implies is_digit_char(#[trigger] seg[t]) by {
                assert(seg[t] == s@[a1 + t]);
            }
            lemma_val_lt_100000(seg);
        }
        acc = acc * 10 + d;
        k = k + 1;
    }
    if acc > 65535 {
        proof {
            assert forall|c: Config| !renders_to(c, s@) by {
                if renders_to(c, s@) {
                    lemma_canonical_layout(c, s@);
                    lemma_field_end_unique(s@, 9, j1 as int, hb(c));
                    lemma_digit_run_unique(s@, a1 as int, j2 as int, pe(c));
                    assert(run == dec_spec(c.port as int));
                    lemma_val_dec(c.port as int);
                }
            }
        }
        return None;
    }
    let port = acc as u16;
    let a2 = match eat_lit(s, j2, ",\"directory\":\"") {
        Some(j) => j,
        None => {
            proof {
                assert forall|c: Config| !renders_to(c, s@) by {
                    if renders_to(c, s@) {
                        lemma_canonical_layout(c, s@);
                        lemma_field_end_unique(s@, 9, j1 as int, hb(c));
                        lemma_digit_run_unique(s@, a1 as int, j2 as int, pe(c));
                    }
                }
            }
            return None;
        },
    };
    let j3 = match scan_field(s, a2) {
        Some(j) => j,
        None => {
            proof {
                assert forall|c: Config| !renders_to(c, s@) by {
                    if renders_to(c, s@) {
                        lemma_canonical_layout(c, s@);
                        lemma_field_end_unique(s@, 9, j1 as int, hb(c));
                        lemma_digit_run_unique(s@, a1 as int, j2 as int, pe(c));
                        assert(field_end(s@, a2 as int, de(c)));
                    }
                }
            }
            return None;
        },
    };
    let directory = s.substring_char(a2, j3).to_owned();
    let a3 = match eat_lit(s, j3, "\",\"filepath_403\":\"") {
        Some(j) => j,
        None => {
            proof {
                assert forall|c: Config| !renders_to(c, s@) by {
                    if renders_to(c, s@) {
                        lemma_canonical_layout(c, s@);
                        lemma_field_end_unique(s@, 9, j1 as int, hb(c));
                        lemma_digit_run_unique(s@, a1 as int, j2 as int, pe(c));
                        lemma_field_end_unique(s@, a2 as int, j3 as int, de(c));
                    }
                }
            }
            return None;
        },
    };
    let j4 = match scan_field(s, a3) {
        Some(j) => j,
        None => {
            proof {
                assert forall|c: Config| !renders_to(c, s@) by {
                    if renders_to(c, s@) {
                        lemma_canonical_layout(c, s@);
                        lemma_field_end_unique(s@, 9, j1 as int, hb(c));
                        lemma_digit_run_unique(s@, a1 as int, j2 as int, pe(c));
                        lemma_field_end_unique(s@, a2 as int, j3 as int, de(c));
                        assert(field_end(s@, a3 as int, f3e(c)));
                    }
                }
            }
            return None;
        },
    };
    let filepath_403 = s.substring_char(a3, j4).to_owned();
    let a4 = match eat_lit(s, j4, "\",\"filepath_404\":\"") {
        Some(j) => j,
        None => {
            proof {
                assert forall|c: Config| !renders_to(c, s@) by {
                    if renders_to(c, s@) {
                        lemma_canonical_layout(c, s@);
                        lemma_field_end_unique(s@, 9, j1 as int, hb(c));
                        lemma_digit_run_unique(s@, a1 as int, j2 as int, pe(c));
                        lemma_field_end_unique(s@, a2 as int, j3 as int, de(c));
                        lemma_field_end_unique(s@, a3 as int, j4 as int, f3e(c));
                    }
                }
            }
            return None;
        },
    };
    let j5 = match scan_field(s, a4) {
        Some(j) => j,
        None => {
            proof {
                assert forall|c: Config| !renders_to(c, s@) by {
                    if renders_to(c, s@) {
                        lemma_canonical_layout(c, s@);
                        lemma_field_end_unique(s@, 9, j1 as int, hb(c));
                        lemma_digit_run_unique(s@, a1 as int, j2 as int, pe(c));
                        lemma_field_end_unique(s@, a2 as int, j3 as int, de(c));
                        lemma_field_end_unique(s@, a3 as int, j4 as int, f3e(c));
                        assert(field_end(s@, a4 as int, f4e(c)));
                    }
                }
            }
            return None;
        },
    };
    let filepath_404 = s.substring_char(a4, j5).to_owned();
    let a5 = match eat_lit(s, j5, "\",\"filepath_500\":\"") {
        Some(j) => j,
        None => {
            proof {
                assert forall|c: Config| !renders_to(c, s@) by {
                    if renders_to(c, s@) {
                        lemma_canonical_layout(c, s@);
                        lemma_field_end_unique(s@, 9, j1 as int, hb(c));
                        lemma_digit_run_unique(s@, a1 as int, j2 as int, pe(c));
                        lemma_field_end_unique(s@, a2 as int, j3 as int, de(c));
                        lemma_field_end_unique(s@, a3 as int, j4 as int, f3e(c));
                        lemma_field_end_unique(s@, a4 as int, j5 as int, f4e(c));
                    }
                }
            }
            return None;
        },
    };
    let j6 = match scan_field(s, a5) {
        Some(j) => j,
        None => {
            proof {
                assert forall|c: Config| !renders_to(c, s@) by {
                    if renders_to(c, s@) {
                        lemma_canonical_layout(c, s@);
                        lemma_field_end_unique(s@, 9, j1 as int, hb(c));
                        lemma_digit_run_unique(s@, a1 as int, j2 as int, pe(c));
                        lemma_field_end_unique(s@, a2 as int, j3 as int, de(c));
                        lemma_field_end_unique(s@, a3 as int, j4 as int, f3e(c));
                        lemma_field_end_unique(s@, a4 as int, j5 as int, f4e(c));
                        assert(field_end(s@, a5 as int, f5e(c)));
                    }
                }
            }
            return None;
        },
    };
    let filepath_500 = s.substring_char(a5, j6).to_owned();
    let cfg = Config { host, port, directory, filepath_403, filepath_404, filepath_500 };
    match config_to_string(&cfg) {
        Ok(out) => {
            let s_owned: String = s.to_owned();
            if out == s_owned {
                Some(cfg)
            } else {
                proof {
                    assert forall|c: Config| !renders_to(c, s@) by {
                        if renders_to(c, s@) {
                            lemma_canonical_layout(c, s@);
                            lemma_field_end_unique(s@, 9, j1 as int, hb(c));
                            lemma_digit_run_unique(s@, a1 as int, j2 as int, pe(c));
                            lemma_field_end_unique(s@, a2 as int, j3 as int, de(c));
                            lemma_field_end_unique(s@, a3 as int, j4 as int, f3e(c));
                            lemma_field_end_unique(s@, a4 as int, j5 as int, f4e(c));
                            lemma_field_end_unique(s@, a5 as int, j6 as int, f5e(c));
                            assert(run == dec_spec(c.port as int));
                            lemma_val_dec(c.port as int);
                            assert(cfg.port == c.port);
                            assert(serial_spec(cfg) == serial_spec(c));
                        }
                    }
                }
                None
            }
        },
        Err(_) => {
            proof {
                assert(plain(cfg.host@));
                assert(plain(cfg.directory@));
                assert(plain(cfg.filepath_403@));
                assert(plain(cfg.filepath_404@));
                assert(plain(cfg.filepath_500@));
                assert(false);
            }
            None
        },
    }
}

/// Round trip: two configurations with the same canonical text agree on
/// every field. Together with the parser's contract — it returns exactly the
/// configuration whose canonical text the input is — writing a configuration
/// and parsing the written text yields an equal configuration.
pub proof fn lemma_serial_injective(c1: Config, c2: Config)
    requires
        can_serialize(c1),
        can_serialize(c2),
        serial_spec(c1) == serial_spec(c2),
    ensures
        c1.host@ == c2.host@,
        c1.port == c2.port,
        c1.directory@ == c2.directory@,
        c1.filepath_403@ == c2.filepath_403@,
        c1.filepath_404@ == c2.filepath_404@,
        c1.filepath_500@ == c2.filepath_500@,
{
    let s = serial_spec(c1);
    lemma_canonical_layout(c1, s);
    lemma_canonical_layout(c2, s);
    lemma_field_end_unique(s, 9, hb(c1), hb(c2));
    lemma_digit_run_unique(s, pb(c1), pe(c1), pe(c2));
    lemma_dec_injective(c1.port as int, c2.port as int);
    lemma_field_end_unique(s, db(c1), de(c1), de(c2));
    lemma_field_end_unique(s, f3b(c1), f3e(c1), f3e(c2));
    lemma_field_end_unique(s, f4b(c1), f4e(c1), f4e(c2));
    lemma_field_end_unique(s, f5b(c1), f5e(c1), f5e(c2));
}

} // verus!
