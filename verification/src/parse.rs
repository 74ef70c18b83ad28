//! Parsers for package identifiers: name-version-release strings, full
//! name-epoch-version-release.arch strings, and package file names.

use vstd::prelude::*;
use crate::text::{find_first, find_last, first_index, last_index, lemma_first_index, lemma_last_index, to_chars};

verus! {

/// The message for an identifier that lacks a separator.
pub open spec fn nevra_error(s: Seq<char>) -> Seq<char> {
    "Unexpected error when parsing NEVRAs: "@ + s
}

/// The message for a file name without an extension.
pub open spec fn filename_error(s: Seq<char>) -> Seq<char> {
    "Unexpected error when parsing dnf output: "@ + s
}

/// Name, version and release of `s`: the text is cut at its last two
/// dashes, so that the name keeps any dash before them.
pub open spec fn nvr_parts(s: Seq<char>) -> Option<(Seq<char>, Seq<char>, Seq<char>)> {
    let i = last_index(s, '-');
    let j = last_index(s.take(i), '-');
    if i < 0 || j < 0 {
        None
    } else {
        Some((s.take(j), s.subrange(j + 1, i), s.skip(i + 1)))
    }
}

/// Epoch and version of the middle part of an identifier: cut at the first
/// colon, with epoch `0` where there is none.
pub open spec fn epoch_version(ev: Seq<char>) -> (Seq<char>, Seq<char>) {
    let c = first_index(ev, ':');
    if c < 0 {
        ("0"@, ev)
    } else {
        (ev.take(c), ev.skip(c + 1))
    }
}

/// Name, epoch, version, release and architecture of `s`, or the message
/// that says which text could not be split.
pub open spec fn nevra_parts(s: Seq<char>) -> Result<
    (Seq<char>, Seq<char>, Seq<char>, Seq<char>, Seq<char>),
    Seq<char>,
> {
    let d = last_index(s, '.');
    if d < 0 {
        Err(nevra_error(s))
    } else {
        match nvr_parts(s.take(d)) {
            None => Err(nevra_error(s.take(d))),
            Some((n, ev, r)) => Ok(
                (n, epoch_version(ev).0, epoch_version(ev).1, r, s.skip(d + 1)),
            ),
        }
    }
}

/// The parts of a package file name: the extension after the last dot is
/// dropped, the rest is read as by `nevra_parts`.
pub open spec fn filename_parts(s: Seq<char>) -> Result<
    (Seq<char>, Seq<char>, Seq<char>, Seq<char>, Seq<char>),
    Seq<char>,
> {
    let d = last_index(s, '.');
    if d < 0 {
        Err(filename_error(s))
    } else {
        nevra_parts(s.take(d))
    }
}

/// Whether `s` holds at least two dashes.
pub open spec fn has_two_dashes(s: Seq<char>) -> bool {
    exists|i: int, j: int| 0 <= i < j < s.len() && s[i] == '-' && s[j] == '-'
}

/// A string splits into name, version and release exactly when it holds two
/// dashes; the parts, joined by dashes again, give the string back, and
/// neither version nor release holds a dash.
pub proof fn lemma_nvr_parts(s: Seq<char>)
    ensures
        nvr_parts(s) is Some <==> has_two_dashes(s),
        nvr_parts(s) matches Some((n, v, r)) ==> {
            &&& n + seq!['-'] + v + seq!['-'] + r == s
            &&& !v.contains('-')
            &&& !r.contains('-')
        },
{
    lemma_last_index(s, '-');
    let i = last_index(s, '-');
    if i >= 0 {
        let head = s.take(i);
        lemma_last_index(head, '-');
        let j = last_index(head, '-');
        if j >= 0 {
            assert(head[j] == s[j]);
            assert(0 <= j < i < s.len() && s[j] == '-' && s[i] == '-');
            let n = s.take(j);
            let v = s.subrange(j + 1, i);
            let r = s.skip(i + 1);
            assert(n + seq!['-'] + v + seq!['-'] + r =~= s);
            assert(!v.contains('-')) by {
                if v.contains('-') {
                    let k = choose|k: int| 0 <= k < v.len() && v[k] == '-';
                    assert(head[j + 1 + k] == '-');
                }
            }
            assert(!r.contains('-')) by {
                if r.contains('-') {
                    let k = choose|k: int| 0 <= k < r.len() && r[k] == '-';
                    assert(s[i + 1 + k] == '-');
                }
            }
        } else {
            if has_two_dashes(s) {
                let (a, b) = choose|a: int, b: int|
                    0 <= a < b < s.len() && s[a] == '-' && s[b] == '-';
                assert(head[a] == '-');
            }
        }
    }
}

/// Without a dot, or without two dashes before the last dot, a string is no
/// full package identifier.
pub proof fn lemma_nevra_parts(s: Seq<char>)
    ensures
        nevra_parts(s) is Ok <==> last_index(s, '.') >= 0 && has_two_dashes(
            s.take(last_index(s, '.')),
        ),
        !s.contains('.') ==> nevra_parts(s) is Err,
        nevra_parts(s) matches Ok((n, e, v, r, a)) ==> !a.contains('.') && !r.contains('-')
            && !e.contains(':'),
{
    lemma_last_index(s, '.');
    let d = last_index(s, '.');
    if d >= 0 {
        lemma_nvr_parts(s.take(d));
        let a = s.skip(d + 1);
        assert(!a.contains('.')) by {
            if a.contains('.') {
                let k = choose|k: int| 0 <= k < a.len() && a[k] == '.';
                assert(s[d + 1 + k] == '.');
            }
        }
        if let Some((n, ev, r)) = nvr_parts(s.take(d)) {
            lemma_first_index(ev, ':');
            let e = epoch_version(ev).0;
            assert(!e.contains(':')) by {
                if first_index(ev, ':') < 0 {
                    reveal_strlit("0");
                    if e.contains(':') {
                        let k = choose|k: int| 0 <= k < e.len() && e[k] == ':';
                    }
                } else if e.contains(':') {
                    let k = choose|k: int| 0 <= k < e.len() && e[k] == ':';
                    assert(ev[k] == ':');
                }
            }
        }
    }
}

/// A file name without a dot is rejected, and so is one whose stem is no
/// full package identifier.
pub proof fn lemma_filename_parts(s: Seq<char>)
    ensures
        !s.contains('.') ==> filename_parts(s) is Err,
        filename_parts(s) is Ok <==> last_index(s, '.') >= 0 && nevra_parts(
            s.take(last_index(s, '.')),
        ) is Ok,
{
    lemma_last_index(s, '.');
}

/// Builds an error message from its fixed head and the offending text.
fn error_message(head: &str, chars: &Vec<char>, text: &str, end: usize) -> (msg: String)
    requires
        chars@ == text@,
        end <= chars.len(),
    ensures
        msg@ == head@ + text@.take(end as int),
{
    let owned = head.to_owned();
    owned.concat(text.substring_char(0, end))
}

/// Finds the two dashes at which the first `end` characters are cut into
/// name, version and release.
fn dash_cuts(chars: &Vec<char>, end: usize) -> (res: Option<(usize, usize)>)
    requires
        end <= chars.len(),
    ensures
        match res {
            Some((j, i)) => j < i < end && nvr_parts(chars@.take(end as int)) == Some(
                (
                    chars@.subrange(0, j as int),
                    chars@.subrange(j + 1, i as int),
                    chars@.subrange(i + 1, end as int),
                ),
            ),
            None => nvr_parts(chars@.take(end as int)) is None,
        },
{
    let ghost s = chars@.take(end as int);
    match find_last(chars, end, '-') {
        None => None,
        Some(i) => {
            proof {
                assert(s.take(i as int) =~= chars@.take(i as int));
            }
            match find_last(chars, i, '-') {
                None => None,
                Some(j) => {
                    proof {
                        assert(s.take(j as int) =~= chars@.subrange(0, j as int));
                        assert(s.subrange(j + 1, i as int) =~= chars@.subrange(j + 1, i as int));
                        assert(s.skip(i + 1) =~= chars@.subrange(i + 1, end as int));
                    }
                    Some((j, i))
                },
            }
        },
    }
}

/// Splits the first `end` characters of `text` into the five parts of a
/// full package identifier.
fn split_nevra<'a>(text: &'a str, chars: &Vec<char>, end: usize) -> (res: Result<
    (&'a str, &'a str, &'a str, &'a str, &'a str),
    String,
>)
    requires
        chars@ == text@,
        end <= chars.len(),
    ensures
        match res {
            Ok((n, e, v, r, a)) => nevra_parts(text@.take(end as int)) == Ok::<
                (Seq<char>, Seq<char>, Seq<char>, Seq<char>, Seq<char>),
                Seq<char>,
            >((n@, e@, v@, r@, a@)),
            Err(msg) => nevra_parts(text@.take(end as int)) == Err::<
                (Seq<char>, Seq<char>, Seq<char>, Seq<char>, Seq<char>),
                Seq<char>,
            >(msg@),
        },
{
    let ghost s = text@.take(end as int);
    match find_last(chars, end, '.') {
        None => {
            Err(error_message("Unexpected error when parsing NEVRAs: ", chars, text, end))
        },
        Some(d) => {
            proof {
                assert(s.take(d as int) =~= text@.take(d as int));
                assert(s.skip(d + 1) =~= text@.subrange(d + 1, end as int));
            }
            match dash_cuts(chars, d) {
                None => {
                    Err(error_message("Unexpected error when parsing NEVRAs: ", chars, text, d))
                },
                Some((j, i)) => {
                    let n = text.substring_char(0, j);
                    let r = text.substring_char(i + 1, d);
                    let a = text.substring_char(d + 1, end);
                    let ghost ev = text@.subrange(j + 1, i as int);
                    match find_first(chars, j + 1, ':') {
                        Some(c) if c < i => {
                            proof {
                                let rest = chars@.skip(j + 1);
                                lemma_first_index(rest, ':');
                                lemma_first_index(ev, ':');
                                let f = first_index(ev, ':');
                                assert(ev[c - (j + 1)] == rest[c - (j + 1)]);
                                if f >= 0 {
                                    assert(ev[f] == rest[f]);
                                }
                                assert(f == c - (j + 1));
                                assert(ev.take(f) =~= text@.subrange(j + 1, c as int));
                                assert(ev.skip(f + 1) =~= text@.subrange(c + 1, i as int));
                            }
                            Ok(
                                (
                                    n,
                                    text.substring_char(j + 1, c),
                                    text.substring_char(c + 1, i),
                                    r,
                                    a,
                                ),
                            )
                        },
                        _ => {
                            proof {
                                let rest = chars@.skip(j + 1);
                                lemma_first_index(rest, ':');
                                lemma_first_index(ev, ':');
                                let f = first_index(ev, ':');
                                if f >= 0 {
                                    assert(ev[f] == rest[f]);
                                }
                                assert(f < 0);
                            }
                            Ok((n, "0", text.substring_char(j + 1, i), r, a))
                        },
                    }
                },
            }
        },
    }
}

/// Parses a full package identifier into name, epoch, version, release and
/// architecture. The epoch is `0` where the identifier gives none.
pub fn parse_nevra(nevra: &str) -> (res: Result<(&str, &str, &str, &str, &str), String>)
    ensures
        match res {
            Ok((n, e, v, r, a)) => nevra_parts(nevra@) == Ok::<
                (Seq<char>, Seq<char>, Seq<char>, Seq<char>, Seq<char>),
                Seq<char>,
            >((n@, e@, v@, r@, a@)),
            Err(msg) => nevra_parts(nevra@) == Err::<
                (Seq<char>, Seq<char>, Seq<char>, Seq<char>, Seq<char>),
                Seq<char>,
            >(msg@),
        },
{
    let chars = to_chars(nevra);
    proof {
        assert(nevra@.take(chars.len() as int) =~= nevra@);
    }
    split_nevra(nevra, &chars, chars.len())
}

/// Parses a package file name: the extension is dropped, the rest is parsed
/// as a full package identifier.
pub fn parse_filename(nevrax: &str) -> (res: Result<(&str, &str, &str, &str, &str), String>)
    ensures
        match res {
            Ok((n, e, v, r, a)) => filename_parts(nevrax@) == Ok::<
                (Seq<char>, Seq<char>, Seq<char>, Seq<char>, Seq<char>),
                Seq<char>,
            >((n@, e@, v@, r@, a@)),
            Err(msg) => filename_parts(nevrax@) == Err::<
                (Seq<char>, Seq<char>, Seq<char>, Seq<char>, Seq<char>),
                Seq<char>,
            >(msg@),
        },
{
    let chars = to_chars(nevrax);
    proof {
        assert(nevrax@.take(chars.len() as int) =~= nevrax@);
    }
    match find_last(&chars, chars.len(), '.') {
        None => Err(
            error_message("Unexpected error when parsing dnf output: ", &chars, nevrax, chars.len()),
        ),
        Some(d) => split_nevra(nevrax, &chars, d),
    }
}

/// Parses a name-version-release string into its three parts.
pub fn parse_nvr(nvr: &str) -> (res: Result<(&str, &str, &str), String>)
    ensures
        match res {
            Ok((n, v, r)) => nvr_parts(nvr@) == Some((n@, v@, r@)),
            Err(msg) => nvr_parts(nvr@) is None && msg@ == nevra_error(nvr@),
        },
{
    let chars = to_chars(nvr);
    proof {
        assert(nvr@.take(chars.len() as int) =~= nvr@);
    }
    match dash_cuts(&chars, chars.len()) {
        Some((j, i)) => Ok(
            (
                nvr.substring_char(0, j),
                nvr.substring_char(j + 1, i),
                nvr.substring_char(i + 1, chars.len()),
            ),
        ),
        None => Err(
            error_message("Unexpected error when parsing NEVRAs: ", &chars, nvr, chars.len()),
        ),
    }
}

} // verus!
