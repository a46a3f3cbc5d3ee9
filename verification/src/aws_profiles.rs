//! Profile names found in the AWS shared config and credentials files.
//!
//! Reading the files (and honouring `AWS_CONFIG_FILE` /
//! `AWS_SHARED_CREDENTIALS_FILE`) is I/O and stays with the caller; this
//! module decides which names their contents declare.
use vstd::prelude::*;

use crate::text::{
    chars_lt, chars_of, compare_chars, has_prefix, insert_sorted, lines_of, lines_spec,
    seqs_of, slice_chars, strs_view, starts_with, string_of, strictly_sorted, trim_chars, trim_spec,
};

verus! {

/// The section name declared by one line, if the line is a `[...]` header:
/// the line trimmed must start with `[` and, after that, end with `]`; the
/// name is what lies between them, trimmed.
pub open spec fn header_of(line: Seq<char>) -> Option<Seq<char>> {
    let l = trim_spec(line);
    if l.len() >= 2 && l[0] == '[' && l.last() == ']' {
        Some(trim_spec(l.subrange(1, l.len() - 1)))
    } else {
        None
    }
}

/// The section names declared by a sequence of lines, in order.
pub open spec fn headers_of(lines: Seq<Seq<char>>) -> Seq<Seq<char>>
    decreases lines.len(),
{
    if lines.len() == 0 {
        Seq::empty()
    } else {
        let rest = headers_of(lines.drop_last());
        match header_of(lines.last()) {
            Some(h) => rest.push(h),
            None => rest,
        }
    }
}

/// The section names of an INI-style text, in order of appearance.
pub open spec fn section_headers_spec(content: Seq<char>) -> Seq<Seq<char>> {
    headers_of(lines_spec(content))
}

/// The profile a config-file section declares: `default` for `[default]`,
/// `name` (trimmed) for `[profile name]`, none otherwise.
pub open spec fn config_profile(section: Seq<char>) -> Option<Seq<char>> {
    if section == "default"@ {
        Some("default"@)
    } else if has_prefix(section, "profile "@) {
        Some(trim_spec(section.skip(8)))
    } else {
        None
    }
}

/// The profile a credentials-file section declares: the section name, less a
/// stray `profile ` prefix, trimmed.
pub open spec fn creds_profile(section: Seq<char>) -> Seq<char> {
    if has_prefix(section, "profile "@) {
        trim_spec(section.skip(8))
    } else {
        trim_spec(section)
    }
}

/// Whether the two files' contents declare the profile `name`.
pub open spec fn declares_profile(config: Seq<char>, creds: Seq<char>, name: Seq<char>) -> bool {
    ||| exists|i: int|
        0 <= i < section_headers_spec(config).len() && config_profile(
            #[trigger] section_headers_spec(config)[i],
        ) == Some(name)
    ||| exists|i: int|
        0 <= i < section_headers_spec(creds).len() && creds_profile(
            #[trigger] section_headers_spec(creds)[i],
        ) == name
}

/// Whether a config-file section declares the profile `name`: `[default]`
/// declares `default`, and `[profile name]` declares `name` (trimmed).
pub open spec fn config_section_names(section: Seq<char>, name: Seq<char>) -> bool {
    ||| section == "default"@ && name == "default"@
    ||| section.len() >= 8 && section.take(8) == "profile "@ && name == trim_spec(section.skip(8))
}

/// Only `[default]` and `[profile name]` sections of the config file declare
/// profiles: any other section (such as `[sso-session corp]`) declares none.
pub proof fn lemma_config_sections_declaring_profiles(section: Seq<char>)
    ensures
        config_profile(section) matches Some(n) ==> config_section_names(section, n),
        section != "default"@ && !(section.len() >= 8 && section.take(8) == "profile "@)
            ==> config_profile(section) is None,
{
    reveal_strlit("default");
    reveal_strlit("profile ");
}

/// Every profile the two files declare comes from a `[default]` or
/// `[profile name]` section of the config file, or from a section of the
/// credentials file (its name, less a stray `profile ` prefix, trimmed).
pub proof fn lemma_declared_profiles_come_from_sections(config: Seq<char>, creds: Seq<char>, name: Seq<char>)
    requires
        declares_profile(config, creds, name),
    ensures
        (exists|i: int|
            0 <= i < section_headers_spec(config).len() && config_section_names(
                #[trigger] section_headers_spec(config)[i],
                name,
            )) || (exists|i: int|
            0 <= i < section_headers_spec(creds).len() && {
                let sec = #[trigger] section_headers_spec(creds)[i];
                if sec.len() >= 8 && sec.take(8) == "profile "@ {
                    name == trim_spec(sec.skip(8))
                } else {
                    name == trim_spec(sec)
                }
            }),
{
    reveal_strlit("default");
    reveal_strlit("profile ");
    let cs = section_headers_spec(config);
    let ks = section_headers_spec(creds);
    if exists|i: int| 0 <= i < cs.len() && config_profile(#[trigger] cs[i]) == Some(name) {
        let i = choose|i: int| 0 <= i < cs.len() && config_profile(#[trigger] cs[i]) == Some(name);
        lemma_config_sections_declaring_profiles(cs[i]);
        assert(config_section_names(cs[i], name));
    } else {
        let i = choose|i: int| 0 <= i < ks.len() && creds_profile(#[trigger] ks[i]) == name;
        assert(creds_profile(ks[i]) == name);
    }
}

proof fn lemma_trim_start_len(s: Seq<char>)
    ensures
        crate::text::trim_start_spec(s).len() <= s.len(),
    decreases s.len(),
{
    if s.len() > 0 {
        lemma_trim_start_len(s.drop_first());
    }
}

proof fn lemma_trim_end_len(s: Seq<char>)
    ensures
        crate::text::trim_end_spec(s).len() <= s.len(),
    decreases s.len(),
{
    if s.len() > 0 {
        lemma_trim_end_len(s.drop_last());
    }
}

/// The section header declared by one line (see [`header_of`]).
fn header_of_line(line: &Vec<char>) -> (r: Option<Vec<char>>)
    ensures
        match r {
            Some(h) => header_of(line@) == Some(h@),
            None => header_of(line@) is None,
        },
{
    let l = trim_chars(line);
    let n = l.len();
    if n >= 2 && l[0] == '[' && l[n - 1] == ']' {
        let inner = slice_chars(&l, 1, n - 1);
        Some(trim_chars(&inner))
    } else {
        None
    }
}

/// Section names of an INI-style text, in order (`[name]` lines, names
/// trimmed).
pub fn section_headers(content: &str) -> (r: Vec<Vec<char>>)
    ensures
        seqs_of(r@) == section_headers_spec(content@),
{
    let cs = chars_of(content);
    let lines = lines_of(&cs);
    let mut r: Vec<Vec<char>> = Vec::new();
    let mut i: usize = 0;
    while i < lines.len()
        invariant
            i <= lines.len(),
            seqs_of(r@) == headers_of(seqs_of(lines@).take(i as int)),
        decreases lines.len() - i,
    {
        let ghost old_r = seqs_of(r@);
        assert(seqs_of(lines@).take(i + 1).drop_last() =~= seqs_of(lines@).take(i as int));
        match header_of_line(&lines[i]) {
            Some(h) => {
                r.push(h);
                assert(seqs_of(r@) =~= old_r.push(seqs_of(lines@)[i as int]).take(
                    old_r.len() as int,
                ).push(r@[r@.len() - 1]@));
            },
            None => {},
        }
        i += 1;
    }
    assert(seqs_of(lines@).take(lines.len() as int) =~= seqs_of(lines@));
    r
}

/// The name `section` declares in a config file (see [`config_profile`]).
fn config_profile_of(section: &Vec<char>) -> (r: Option<Vec<char>>)
    ensures
        match r {
            Some(n) => config_profile(section@) == Some(n@),
            None => config_profile(section@) is None,
        },
{
    let default_name = chars_of("default");
    let prefix = chars_of("profile ");
    proof {
        reveal_strlit("default");
        reveal_strlit("profile ");
    }
    if compare_chars(section, &default_name) == 0 {
        Some(default_name)
    } else if starts_with(section, &prefix) {
        let rest = slice_chars(section, 8, section.len());
        assert(rest@ == section@.skip(8));
        Some(trim_chars(&rest))
    } else {
        None
    }
}

/// The name `section` declares in a credentials file (see [`creds_profile`]).
fn creds_profile_of(section: &Vec<char>) -> (r: Vec<char>)
    ensures
        r@ == creds_profile(section@),
{
    let prefix = chars_of("profile ");
    proof {
        reveal_strlit("profile ");
    }
    if starts_with(section, &prefix) {
        let rest = slice_chars(section, 8, section.len());
        assert(rest@ == section@.skip(8));
        trim_chars(&rest)
    } else {
        trim_chars(section)
    }
}

/// Extracts the profile names from the contents of the AWS config file and
/// credentials file. Config sections are `[profile name]` / `[default]`;
/// credentials sections are bare `[name]` (a stray `profile ` prefix is
/// tolerated). The result holds each non-empty declared name once, in
/// ascending byte order.
pub fn profiles_from(config: &str, creds: &str) -> (r: Vec<String>)
    ensures
        strictly_sorted(strs_view(r@)),
        forall|name: Seq<char>|
            strs_view(r@).contains(name) <==> (name.len() > 0 && declares_profile(
                config@,
                creds@,
                name,
            )),
{
    let mut names: Vec<Vec<char>> = Vec::new();
    let config_sections = section_headers(config);
    let ghost cs = section_headers_spec(config@);
    let ghost ks = section_headers_spec(creds@);
    let mut i: usize = 0;
    while i < config_sections.len()
        invariant
            i <= config_sections.len(),
            seqs_of(config_sections@) == cs,
            strictly_sorted(seqs_of(names@)),
            forall|name: Seq<char>|
                seqs_of(names@).contains(name) <==> exists|j: int|
                    0 <= j < i && config_profile(#[trigger] cs[j]) == Some(name),
        decreases config_sections.len() - i,
    {
        let ghost before = seqs_of(names@);
        match config_profile_of(&config_sections[i]) {
            Some(n) => {
                let ghost nv = n@;
                insert_sorted(&mut names, n);
                assert forall|name: Seq<char>|
                    seqs_of(names@).contains(name) <==> exists|j: int|
                        0 <= j < i + 1 && config_profile(#[trigger] cs[j]) == Some(name) by {
                    if name == nv {
                        assert(config_profile(cs[i as int]) == Some(name));
                    }
                    if exists|j: int| 0 <= j < i + 1 && config_profile(#[trigger] cs[j]) == Some(name) {
                        let j = choose|j: int| 0 <= j < i + 1 && config_profile(#[trigger] cs[j]) == Some(name);
                        if j < i {
                            assert(before.contains(name));
                        }
                    }
                }
            },
            None => {
                assert forall|name: Seq<char>|
                    seqs_of(names@).contains(name) <==> exists|j: int|
                        0 <= j < i + 1 && config_profile(#[trigger] cs[j]) == Some(name) by {
                    if exists|j: int| 0 <= j < i + 1 && config_profile(#[trigger] cs[j]) == Some(name) {
                        let j = choose|j: int| 0 <= j < i + 1 && config_profile(#[trigger] cs[j]) == Some(name);
                        assert(j < i);
                    }
                }
            },
        }
        i += 1;
    }
    let creds_sections = section_headers(creds);
    let mut k: usize = 0;
    while k < creds_sections.len()
        invariant
            k <= creds_sections.len(),
            seqs_of(creds_sections@) == ks,
            cs == section_headers_spec(config@),
            strictly_sorted(seqs_of(names@)),
            forall|name: Seq<char>|
                seqs_of(names@).contains(name) <==> ((exists|j: int|
                    0 <= j < cs.len() && config_profile(#[trigger] cs[j]) == Some(name)) || exists|
                    j: int,
                | 0 <= j < k && creds_profile(#[trigger] ks[j]) == name),
        decreases creds_sections.len() - k,
    {
        let ghost before = seqs_of(names@);
        let n = creds_profile_of(&creds_sections[k]);
        let ghost nv = n@;
        insert_sorted(&mut names, n);
        assert forall|name: Seq<char>|
            seqs_of(names@).contains(name) <==> ((exists|j: int|
                0 <= j < cs.len() && config_profile(#[trigger] cs[j]) == Some(name)) || exists|
                j: int,
            | 0 <= j < k + 1 && creds_profile(#[trigger] ks[j]) == name) by {
            if name == nv {
                assert(creds_profile(ks[k as int]) == name);
            }
            if exists|j: int| 0 <= j < k + 1 && creds_profile(#[trigger] ks[j]) == name {
                let j = choose|j: int| 0 <= j < k + 1 && creds_profile(#[trigger] ks[j]) == name;
                if j < k {
                    assert(before.contains(name));
                }
            }
        }
        k += 1;
    }
    assert forall|name: Seq<char>|
        seqs_of(names@).contains(name) <==> declares_profile(config@, creds@, name) by {}
    // keep the non-empty names, in order
    let mut r: Vec<String> = Vec::new();
    let mut m: usize = 0;
    while m < names.len()
        invariant
            m <= names.len(),
            strictly_sorted(seqs_of(names@)),
            forall|name: Seq<char>|
                seqs_of(names@).contains(name) <==> declares_profile(config@, creds@, name),
            strs_view(r@) == seqs_of(names@).take(m as int).filter(non_empty()),
        decreases names.len() - m,
    {
        let ghost before = strs_view(r@);
        assert(seqs_of(names@).take(m + 1) =~= seqs_of(names@).take(m as int).push(names@[m as int]@));
        proof { seqs_of(names@).take(m as int).lemma_filter_push(names@[m as int]@, non_empty()); }
        if names[m].len() > 0 {
            let s = string_of(&names[m]);
            r.push(s);
            assert(strs_view(r@) =~= before.push(s@));
        }
        m += 1;
    }
    proof {
        let all = seqs_of(names@);
        assert(all.take(names.len() as int) =~= all);
        let pred = non_empty();
        lemma_filter_sorted(all, pred);
        assert forall|name: Seq<char>|
            strs_view(r@).contains(name) <==> (name.len() > 0 && all.contains(name)) by {
            if strs_view(r@).contains(name) {
                all.lemma_filter_contains_rev(pred, name);
                let j = choose|j: int| 0 <= j < strs_view(r@).len() && strs_view(r@)[j] == name;
                all.lemma_filter_pred(pred, j);
            }
            if all.contains(name) && name.len() > 0 {
                let j = choose|j: int| 0 <= j < all.len() && all[j] == name;
                all.lemma_filter_contains(pred, j);
            }
        }
        assert forall|name: Seq<char>|
            strs_view(r@).contains(name) <==> (name.len() > 0 && declares_profile(
                config@,
                creds@,
                name,
            )) by {
            assert(all.contains(name) <==> declares_profile(config@, creds@, name));
            assert(strs_view(r@).contains(name) <==> (name.len() > 0 && all.contains(name)));
        }
    }
    r
}

/// Holds of non-empty character sequences.
pub open spec fn non_empty() -> spec_fn(Seq<char>) -> bool {
    |s: Seq<char>| s.len() > 0
}

proof fn lemma_filter_sorted(s: Seq<Seq<char>>, pred: spec_fn(Seq<char>) -> bool)
    requires
        strictly_sorted(s),
    ensures
        strictly_sorted(s.filter(pred)),
    decreases s.len(),
{
    reveal(Seq::filter);
    if s.len() > 0 {
        lemma_filter_sorted(s.drop_last(), pred);
        let f = s.drop_last().filter(pred);
        if pred(s.last()) {
            assert forall|i: int| 0 <= i < f.len() implies chars_lt(#[trigger] f[i], s.last()) by {
                assert(f.contains(f[i]));
                s.drop_last().lemma_filter_contains_rev(pred, f[i]);
                let j = choose|j: int| 0 <= j < s.drop_last().len() && s.drop_last()[j] == f[i];
                assert(s[j] == f[i]);
            }
        }
    }
}

} // verus!
