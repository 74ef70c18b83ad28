//! Reading what the package manager and `rpm` print: exit status, release
//! number, installed packages, their summaries, binary packages and
//! installation times.

use vstd::prelude::*;
use crate::index::BuildIndex;
use crate::nvr::NVR;
use crate::parse::{filename_parts, parse_filename};
use crate::strings::{split, split_range, split_str, string_from, trim_bounds, trimmed};
use crate::text::{str_eq, texts, to_chars};

verus! {

/// Turns the exit status of a command into a result: success for status
/// zero, the given message for any other status and for none.
pub fn handle_status(code: Option<i32>, message: &str) -> (res: Result<(), String>)
    ensures
        res is Ok <==> code == Some(0i32),
        res matches Err(msg) ==> msg@ == message@,
{
    match code {
        Some(x) => {
            if x != 0 {
                Err(message.to_owned())
            } else {
                Ok(())
            }
        },
        None => Err(message.to_owned()),
    }
}

/// The name of the release with the number that `rpm` printed: the letter
/// `F` and the number, without the white space around it.
pub fn release_name(output: &str) -> (name: String)
    ensures
        name@ == seq!['F'] + trimmed(output@),
{
    let chars = to_chars(output);
    let (start, end) = trim_bounds(&chars);
    let number = string_from(&chars, start, end);
    let name = "F".to_owned().concat(number.as_str());
    proof {
        reveal_strlit("F");
        assert("F"@ =~= seq!['F']);
    }
    name
}

/// A line without the carriage return at its end.
pub open spec fn without_carriage_return(line: Seq<char>) -> Seq<char> {
    if line.len() > 0 && line.last() == '\r' {
        line.drop_last()
    } else {
        line
    }
}

/// The lines of a text. A line ends with a line feed, or with a carriage
/// return and a line feed; what follows the last line feed is a line too,
/// unless it is empty.
pub open spec fn lines(s: Seq<char>) -> Seq<Seq<char>> {
    let parts = split(s, '\n');
    let ended = parts.drop_last().map_values(|l: Seq<char>| without_carriage_return(l));
    if parts.last().len() == 0 {
        ended
    } else {
        ended.push(parts.last())
    }
}

/// The two parts of a line that holds `sep` exactly once.
pub open spec fn two_parts(line: Seq<char>, sep: char) -> Option<(Seq<char>, Seq<char>)> {
    let parts = split(line, sep);
    if parts.len() == 2 {
        Some((parts[0], parts[1]))
    } else {
        None
    }
}

/// Whether every line holds `sep` exactly once.
pub open spec fn all_two_parts(lines: Seq<Seq<char>>, sep: char) -> bool {
    forall|i: int| 0 <= i < lines.len() ==> two_parts(#[trigger] lines[i], sep) is Some
}

/// Whether `lines[k]` is the first line that does not hold `sep` exactly
/// once.
pub open spec fn first_bad_line(lines: Seq<Seq<char>>, sep: char, k: int) -> bool {
    &&& 0 <= k < lines.len()
    &&& two_parts(lines[k], sep) is None
    &&& all_two_parts(lines.take(k), sep)
}

/// The pairs that the lines hold, each line cut at its one `sep`.
pub open spec fn pairs_of(lines: Seq<Seq<char>>, sep: char) -> Seq<(Seq<char>, Seq<char>)> {
    lines.map_values(|l: Seq<char>| two_parts(l, sep).unwrap())
}

/// Name, version and release of the installed package that a line names, or
/// the message that says why the line names none.
pub open spec fn installed_package(line: Seq<char>) -> Result<
    (Seq<char>, Seq<char>, Seq<char>),
    Seq<char>,
> {
    match filename_parts(line) {
        Ok((n, e, v, r, a)) => Ok((n, v, r)),
        Err(message) => Err(message),
    }
}

/// The lines of the characters from `from` up to `to`.
pub fn lines_in(chars: &Vec<char>, from: usize, to: usize) -> (res: Vec<String>)
    requires
        from <= to <= chars.len(),
    ensures
        texts(res@) == lines(chars@.subrange(from as int, to as int)),
{
    let ghost s = chars@.subrange(from as int, to as int);
    let mut parts = split_range(chars, from, to, '\n');
    proof {
        crate::strings::lemma_split(s, '\n');
    }
    let ghost all = texts(parts@);
    let last = parts.pop().unwrap();
    proof {
        assert(texts(parts@) =~= all.drop_last());
    }
    let mut res: Vec<String> = Vec::new();
    let mut i: usize = 0;
    while i < parts.len()
        invariant
            i <= parts.len(),
            texts(res@) == texts(parts@).take(i as int).map_values(
                |l: Seq<char>| without_carriage_return(l),
            ),
        decreases parts.len() - i,
    {
        let ghost before = texts(res@);
        let line = to_chars(parts[i].as_str());
        let end = if line.len() > 0 && line[line.len() - 1] == '\r' {
            line.len() - 1
        } else {
            line.len()
        };
        res.push(string_from(&line, 0, end));
        proof {
            assert(line@.subrange(0, end as int) =~= without_carriage_return(line@));
            assert(texts(res@) =~= before.push(without_carriage_return(line@)));
            assert(texts(res@) =~= texts(parts@).take(i + 1).map_values(
                |l: Seq<char>| without_carriage_return(l),
            ));
        }
        i += 1;
    }
    proof {
        assert(texts(parts@).take(i as int) =~= texts(parts@));
    }
    if last.as_str().unicode_len() > 0 {
        let ghost before = texts(res@);
        res.push(last);
        proof {
            assert(texts(res@) =~= before.push(last@));
        }
    }
    res
}

/// The lines of a text, after the white space around the text is dropped.
pub fn trimmed_lines(output: &str) -> (res: Vec<String>)
    ensures
        texts(res@) == lines(trimmed(output@)),
{
    let chars = to_chars(output);
    let (start, end) = trim_bounds(&chars);
    lines_in(&chars, start, end)
}

/// The parts of a text between its line feeds, after the white space around
/// the text is dropped.
pub fn trimmed_parts(output: &str) -> (res: Vec<String>)
    ensures
        texts(res@) == split(trimmed(output@), '\n'),
{
    let chars = to_chars(output);
    let (start, end) = trim_bounds(&chars);
    split_range(&chars, start, end, '\n')
}

/// Cuts a line that holds `sep` exactly once in two.
pub fn split_in_two(line: &str, sep: char) -> (res: Option<(String, String)>)
    ensures
        match res {
            Some((first, second)) => two_parts(line@, sep) == Some((first@, second@)),
            None => two_parts(line@, sep) is None,
        },
{
    let mut parts = split_str(line, sep);
    if parts.len() != 2 {
        return None;
    }
    let ghost all = texts(parts@);
    let second = parts.pop().unwrap();
    let first = parts.pop().unwrap();
    proof {
        assert(all[0] == first@);
        assert(all[1] == second@);
    }
    Some((first, second))
}

/// Reads the list of installed packages: one package file name on each
/// line. Fails with the message for the first line that is none.
pub fn parse_installed(output: &str) -> (res: Result<Vec<NVR>, String>)
    ensures
        match res {
            Ok(packages) => {
                &&& packages.len() == lines(trimmed(output@)).len()
                &&& forall|i: int|
                    0 <= i < packages.len() ==> installed_package(lines(trimmed(output@))[i])
                        == Ok::<(Seq<char>, Seq<char>, Seq<char>), Seq<char>>(
                        #[trigger] packages[i]@,
                    )
            },
            Err(msg) => exists|k: int|
                {
                    &&& 0 <= k < lines(trimmed(output@)).len()
                    &&& forall|j: int|
                        0 <= j < k ==> installed_package(
                            #[trigger] lines(trimmed(output@))[j],
                        ) is Ok
                    &&& installed_package(#[trigger] lines(trimmed(output@))[k]) == Err::<
                        (Seq<char>, Seq<char>, Seq<char>),
                        Seq<char>,
                    >(msg@)
                },
        },
{
    let all = trimmed_lines(output);
    let ghost rows = texts(all@);
    let mut packages: Vec<NVR> = Vec::new();
    let mut i: usize = 0;
    while i < all.len()
        invariant
            i <= all.len(),
            rows == texts(all@),
            rows == lines(trimmed(output@)),
            packages.len() == i,
            forall|j: int|
                0 <= j < i ==> installed_package(rows[j]) == Ok::<
                    (Seq<char>, Seq<char>, Seq<char>),
                    Seq<char>,
                >(#[trigger] packages[j]@),
        decreases all.len() - i,
    {
        match parse_filename(all[i].as_str()) {
            Ok((n, _, v, r, _)) => {
                packages.push(NVR { n: n.to_owned(), v: v.to_owned(), r: r.to_owned() });
            },
            Err(msg) => {
                proof {
                    assert(installed_package(rows[i as int]) == Err::<
                        (Seq<char>, Seq<char>, Seq<char>),
                        Seq<char>,
                    >(msg@));
                    assert forall|j: int| 0 <= j < i implies installed_package(
                        #[trigger] rows[j],
                    ) is Ok by {
                        assert(installed_package(rows[j]) == Ok::<
                            (Seq<char>, Seq<char>, Seq<char>),
                            Seq<char>,
                        >(packages[j]@));
                    }
                }
                return Err(msg);
            },
        }
        i += 1;
    }
    Ok(packages)
}

/// Reads a list of pairs: each of `lines` holds `sep` exactly once, between
/// a key and a value. Fails with the position of the first line that does
/// not.
pub fn parse_pairs(lines: &Vec<String>, sep: char) -> (res: Result<BuildIndex, usize>)
    ensures
        match res {
            Ok(index) => all_two_parts(texts(lines@), sep) && index@ == pairs_of(
                texts(lines@),
                sep,
            ),
            Err(k) => first_bad_line(texts(lines@), sep, k as int),
        },
{
    let ghost all = texts(lines@);
    let mut index = BuildIndex::new();
    let mut i: usize = 0;
    while i < lines.len()
        invariant
            i <= lines.len(),
            all == texts(lines@),
            all_two_parts(all.take(i as int), sep),
            index@ == pairs_of(all.take(i as int), sep),
        decreases lines.len() - i,
    {
        let ghost before = index@;
        match split_in_two(lines[i].as_str(), sep) {
            Some((key, value)) => {
                index.insert(key, value);
                proof {
                    assert forall|j: int| 0 <= j < all.take(i + 1).len() implies two_parts(
                        #[trigger] all.take(i + 1)[j],
                        sep,
                    ) is Some by {
                        if j < i {
                            assert(all.take(i as int)[j] == all[j]);
                        }
                    }
                    assert(index@ =~= pairs_of(all.take(i + 1), sep));
                }
            },
            None => {
                return Err(i);
            },
        }
        i += 1;
    }
    proof {
        assert(all.take(i as int) =~= all);
    }
    Ok(index)
}

/// Reads the summaries of the installed packages: on each line the name of
/// a package, a tabulator, and the summary. The summary of a package is
/// the value that was added last for its name.
pub fn parse_summaries(output: &str) -> (res: Result<BuildIndex, String>)
    ensures
        match res {
            Ok(index) => all_two_parts(lines(trimmed(output@)), '\t') && index@ == pairs_of(
                lines(trimmed(output@)),
                '\t',
            ),
            Err(msg) => exists|k: int|
                first_bad_line(lines(trimmed(output@)), '\t', k) && msg@ == "Failed to parse: "@
                    + #[trigger] lines(trimmed(output@))[k],
        },
{
    let all = trimmed_lines(output);
    match parse_pairs(&all, '\t') {
        Ok(index) => Ok(index),
        Err(k) => {
            let msg = "Failed to parse: ".to_owned().concat(all[k].as_str());
            proof {
                assert(texts(all@)[k as int] == all[k as int]@);
            }
            Err(msg)
        },
    }
}

/// Reads which binary packages were built from which source package: on
/// each line the source package, a space, and the binary package.
pub fn parse_src_bin_map(output: &str) -> (res: Result<BuildIndex, String>)
    ensures
        match res {
            Ok(index) => all_two_parts(split(trimmed(output@), '\n'), ' ') && index@ == pairs_of(
                split(trimmed(output@), '\n'),
                ' ',
            ),
            Err(msg) => !all_two_parts(split(trimmed(output@), '\n'), ' ') && msg@
                == "Failed to parse dnf output."@,
        },
{
    let all = trimmed_parts(output);
    match parse_pairs(&all, ' ') {
        Ok(index) => Ok(index),
        Err(k) => {
            proof {
                let parts = texts(all@);
                assert(two_parts(parts[k as int], ' ') is None);
            }
            Err("Failed to parse dnf output.".to_owned())
        },
    }
}

/// The error with which `chrono` rejects a text that is no date and time.
#[verifier::external_type_specification]
#[verifier::external_body]
pub struct ExParseError(chrono::ParseError);

/// The point in time that `chrono` reads from `text` by `format`, in
/// seconds since the start of 1970; `None` where it rejects the text.
pub uninterp spec fn naive_datetime_seconds(text: Seq<char>, format: Seq<char>) -> Option<i64>;

/// Calls `chrono::NaiveDateTime::parse_from_str`, and takes the date and
/// time that it reads as one in UTC. The result is what
/// `naive_datetime_seconds` names: the seconds where `chrono` reads a date
/// and time, and an error where it reads none.
#[verifier::external_body]
fn parse_naive_datetime(text: &str, format: &str) -> (res: Result<i64, chrono::ParseError>)
    ensures
        match res {
            Ok(seconds) => naive_datetime_seconds(text@, format@) == Some(seconds),
            Err(_) => naive_datetime_seconds(text@, format@) is None,
        },
{
    match chrono::NaiveDateTime::parse_from_str(text, format) {
        Ok(datetime) => Ok(datetime.and_utc().timestamp()),
        Err(error) => Err(error),
    }
}

/// Calls `chrono`'s `Display` for its parse error, which describes the
/// error in words. Nothing is claimed of the words.
#[verifier::external_body]
fn describe_parse_error(error: &chrono::ParseError) -> (text: String) {
    error.to_string()
}

/// When the installed binary packages were installed: for each package a
/// point in time, in seconds since the start of 1970.
#[derive(Debug)]
pub struct InstallTimes {
    entries: Vec<(String, i64)>,
}

/// The time that `entries` holds first for `key`.
pub open spec fn first_time(entries: Seq<(Seq<char>, i64)>, key: Seq<char>) -> Option<i64>
    decreases entries.len(),
{
    if entries.len() == 0 {
        None
    } else if first_time(entries.drop_last(), key) is Some {
        first_time(entries.drop_last(), key)
    } else if entries.last().0 == key {
        Some(entries.last().1)
    } else {
        None
    }
}

impl View for InstallTimes {
    type V = Seq<(Seq<char>, i64)>;

    closed spec fn view(&self) -> Seq<(Seq<char>, i64)> {
        self.entries@.map_values(|e: (String, i64)| (e.0@, e.1))
    }
}

impl InstallTimes {
    /// No installation times.
    pub fn new() -> (times: InstallTimes)
        ensures
            times@ == Seq::<(Seq<char>, i64)>::empty(),
    {
        let times = InstallTimes { entries: Vec::new() };
        assert(times@ =~= Seq::<(Seq<char>, i64)>::empty());
        times
    }

    /// Records that `package` was installed at `seconds`. The time that
    /// was recorded first for a package is the one that counts.
    pub fn record(&mut self, package: String, seconds: i64)
        ensures
            final(self)@ == old(self)@.push((package@, seconds)),
    {
        self.entries.push((package, seconds));
        assert(self@ =~= old(self)@.push((package@, seconds)));
    }

    /// When `package` was installed, where that is known.
    pub fn get(&self, package: &str) -> (res: Option<i64>)
        ensures
            res == first_time(self@, package@),
    {
        let mut i: usize = 0;
        while i < self.entries.len()
            invariant
                i <= self.entries.len(),
                first_time(self@.take(i as int), package@) is None,
            decreases self.entries.len() - i,
        {
            proof {
                assert(self@.take(i + 1).drop_last() =~= self@.take(i as int));
            }
            if str_eq(self.entries[i].0.as_str(), package) {
                proof {
                    lemma_first_time_prefix(self@, i + 1, package@);
                }
                return Some(self.entries[i].1);
            }
            i += 1;
        }
        proof {
            assert(self@.take(i as int) =~= self@);
        }
        None
    }
}

/// A time that is found among the first `n` entries is the time that is
/// found among them all.
pub proof fn lemma_first_time_prefix(entries: Seq<(Seq<char>, i64)>, n: int, key: Seq<char>)
    requires
        0 <= n <= entries.len(),
        first_time(entries.take(n), key) is Some,
    ensures
        first_time(entries, key) == first_time(entries.take(n), key),
    decreases entries.len() - n,
{
    if n < entries.len() {
        assert(entries.take(n + 1).drop_last() =~= entries.take(n));
        lemma_first_time_prefix(entries, n + 1, key);
    } else {
        assert(entries.take(n) =~= entries);
    }
}

/// The format in which the package manager writes installation times.
pub open spec fn install_time_format() -> Seq<char> {
    "%Y-%m-%d %H:%M"@
}

/// The package and the installation time that a line holds: the package, a
/// tabulator, and a date and time that `chrono` reads.
pub open spec fn install_entry(line: Seq<char>) -> Option<(Seq<char>, i64)> {
    match two_parts(line, '\t') {
        Some((package, time)) => match naive_datetime_seconds(time, install_time_format()) {
            Some(seconds) => Some((package, seconds)),
            None => None,
        },
        None => None,
    }
}

/// The head of the message for a line that cannot be read.
pub open spec fn install_time_error() -> Seq<char> {
    "Failed to parse dnf output: "@
}

/// Reads when the installed packages were installed: on each line a
/// package, a tabulator, and the date and time.
///
/// Fails at the first line that cannot be read. The message names the line
/// where the line is not made of two parts, and says what `chrono` found
/// wrong where the second part is no date and time.
pub fn parse_installation_times(output: &str) -> (res: Result<InstallTimes, String>)
    ensures
        match res {
            Ok(times) => {
                &&& times@.len() == split(trimmed(output@), '\n').len()
                &&& forall|i: int|
                    0 <= i < times@.len() ==> install_entry(split(trimmed(output@), '\n')[i])
                        == Some(#[trigger] times@[i])
            },
            Err(msg) => exists|k: int|
                {
                    &&& 0 <= k < split(trimmed(output@), '\n').len()
                    &&& forall|j: int|
                        0 <= j < k ==> install_entry(
                            #[trigger] split(trimmed(output@), '\n')[j],
                        ) is Some
                    &&& install_entry(#[trigger] split(trimmed(output@), '\n')[k]) is None
                    &&& install_time_error().is_prefix_of(msg@)
                    &&& two_parts(split(trimmed(output@), '\n')[k], '\t') is None ==> msg@
                        == install_time_error() + split(trimmed(output@), '\n')[k]
                },
        },
{
    let all = trimmed_parts(output);
    let ghost rows = texts(all@);
    let mut times = InstallTimes::new();
    let mut i: usize = 0;
    while i < all.len()
        invariant
            i <= all.len(),
            rows == texts(all@),
            rows == split(trimmed(output@), '\n'),
            times@.len() == i,
            forall|j: int| 0 <= j < i ==> install_entry(rows[j]) == Some(#[trigger] times@[j]),
        decreases all.len() - i,
    {
        let ghost before = times@;
        let (binary, installtime) = match split_in_two(all[i].as_str(), '\t') {
            Some(parts) => parts,
            None => {
                let msg = "Failed to parse dnf output: ".to_owned().concat(all[i].as_str());
                proof {
                    assert(install_entry(rows[i as int]) is None);
                    assert forall|j: int| 0 <= j < i implies install_entry(
                        #[trigger] rows[j],
                    ) is Some by {
                        assert(install_entry(rows[j]) == Some(times@[j]));
                    }
                    assert(msg@.subrange(0, install_time_error().len() as int)
                        =~= install_time_error());
                }
                return Err(msg);
            },
        };
        let seconds = match parse_naive_datetime(installtime.as_str(), "%Y-%m-%d %H:%M") {
            Ok(seconds) => seconds,
            Err(error) => {
                let detail = describe_parse_error(&error);
                let msg = "Failed to parse dnf output: ".to_owned().concat(detail.as_str());
                proof {
                    assert(install_entry(rows[i as int]) is None);
                    assert forall|j: int| 0 <= j < i implies install_entry(
                        #[trigger] rows[j],
                    ) is Some by {
                        assert(install_entry(rows[j]) == Some(times@[j]));
                    }
                    assert(msg@.subrange(0, install_time_error().len() as int)
                        =~= install_time_error());
                }
                return Err(msg);
            },
        };
        times.record(binary, seconds);
        proof {
            assert forall|j: int| 0 <= j < i + 1 implies install_entry(rows[j]) == Some(
                #[trigger] times@[j],
            ) by {
                if j < i {
                    assert(times@[j] == before[j]);
                }
            }
        }
        i += 1;
    }
    Ok(times)
}

} // verus!
