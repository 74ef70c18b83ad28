//! The text in which an update, and what is known of it on this system, is
//! shown: line by line, ready to be printed.

use vstd::prelude::*;
use crate::index::{values_for, BuildIndex};
use crate::karma::{format_karma, karma_text};
use crate::numbers::{decimal, i64_to_string};
use crate::parse::{nvr_parts, parse_nvr};
use crate::strings::{trim, trimmed};
use crate::sysinfo::{first_time, InstallTimes};
use crate::text::{str_eq, texts};
use crate::update::{Bug, Comment, TestCase, Timestamp, Update};
use crate::wrap::{fill, filled, indented, wrapped_block};

verus! {

/// The text that holds `c` as often as `n` says, and nothing else.
pub open spec fn repeated(c: char, n: int) -> Seq<char> {
    Seq::new(
        if n < 0 {
            0
        } else {
            n as nat
        },
        |i: int| c,
    )
}

/// The number of bytes that a text takes.
pub open spec fn byte_len(s: Seq<char>) -> nat {
    vstd::utf8::encode_utf8(s).len()
}

/// A number with its unit: the unit stands in the plural but for the
/// numbers one and minus one.
pub open spec fn plural(number: int, term: Seq<char>) -> Seq<char> {
    if number == -1 || number == 1 {
        decimal(number) + seq![' '] + term
    } else {
        decimal(number) + seq![' '] + term + seq!['s']
    }
}

/// A length of time in words, as exact as its two largest units: days and
/// hours, hours and minutes, or minutes alone.
pub open spec fn duration_text(seconds: int) -> Seq<char> {
    if seconds >= 86400 {
        plural(seconds / 86400, "day"@) + " and "@ + plural((seconds % 86400) / 3600, "hour"@)
    } else if seconds >= 3600 {
        plural(seconds / 3600, "hour"@) + " and "@ + plural((seconds % 3600) / 60, "minute"@)
    } else if seconds >= 60 {
        plural(seconds / 60, "minute"@)
    } else {
        "less than a minute"@
    }
}

/// The time from `then` until `now` in seconds; zero where `then` is not
/// in the past.
pub open spec fn elapsed(now: int, then: int) -> int {
    if now > then {
        now - then
    } else {
        0
    }
}

/// A text with spaces before it, so that it holds `width` characters; the
/// text itself where it holds as many or more.
pub open spec fn padded_left(text: Seq<char>, width: int) -> Seq<char> {
    repeated(' ', width - text.len()) + text
}

/// The line that shows how far a query has come: the prefix, a bar of equals
/// signs and spaces between brackets, and the share that is done in
/// percent.
pub open spec fn progress_text(prefix: Seq<char>, done: int, left: int, percent: int) -> Seq<
    char,
> {
    " "@ + prefix + ": [ "@ + repeated('=', done) + repeated(' ', left) + " ] "@ + padded_left(
        decimal(percent),
        3,
    ) + "% "@
}

/// Two texts, one after the other.
pub fn text2(a: &str, b: &str) -> (res: String)
    ensures
        res@ == a@ + b@,
{
    a.to_owned().concat(b)
}

/// Three texts, one after the other.
pub fn text3(a: &str, b: &str, c: &str) -> (res: String)
    ensures
        res@ == a@ + b@ + c@,
{
    a.to_owned().concat(b).concat(c)
}

/// The text that holds `c` as often as `n` says.
pub fn repeat_char(c: char, n: usize) -> (res: String)
    ensures
        res@ == repeated(c, n as int),
{
    let mut res = String::new();
    let mut i: usize = 0;
    while i < n
        invariant
            i <= n,
            res@ == repeated(c, i as int),
        decreases n - i,
    {
        res.push(c);
        proof {
            assert(res@ =~= repeated(c, i + 1));
        }
        i += 1;
    }
    res
}

/// The line that shows how far a query has come: a bar of `done` equals
/// signs and `left` spaces, and the share that is done in percent.
pub fn progress_line(prefix: &str, done: usize, left: usize, percent: u32) -> (res: String)
    ensures
        res@ == progress_text(prefix@, done as int, left as int, percent as int),
{
    let number = crate::numbers::u64_to_string(percent as u64);
    let digits = number.as_str().unicode_len();
    let padding = if digits < 3 {
        repeat_char(' ', 3 - digits)
    } else {
        repeat_char(' ', 0)
    };
    let bar = repeat_char('=', done).concat(repeat_char(' ', left).as_str());
    " ".to_owned().concat(prefix).concat(": [ ").concat(bar.as_str()).concat(" ] ").concat(
        padding.as_str(),
    ).concat(number.as_str()).concat("% ")
}

/// This helper handles proper pluralization of number terms.
pub fn proper_plural(number: i64, term: &str) -> (res: String)
    ensures
        res@ == plural(number as int, term@),
{
    let text = i64_to_string(number).concat(" ").concat(term);
    proof {
        reveal_strlit(" ");
        reveal_strlit("s");
        assert(" "@ =~= seq![' ']);
        assert("s"@ =~= seq!['s']);
    }
    if number == -1 || number == 1 {
        text
    } else {
        text.concat("s")
    }
}

/// The time from `then` until `now` in seconds, both given in seconds since
/// the start of 1970; zero where `then` is not in the past.
pub fn duration_until_now(now: i64, then: i64) -> (seconds: u64)
    ensures
        seconds == elapsed(now as int, then as int),
{
    if now > then {
        let difference: i128 = now as i128 - then as i128;
        difference as u64
    } else {
        0
    }
}

/// This helper function returns a pretty "duration" format.
pub fn pretty_duration(seconds: u64) -> (res: String)
    ensures
        res@ == duration_text(seconds as int),
{
    if seconds >= 86400 {
        let days = seconds / 86400;
        let hours = (seconds % 86400) / 3600;
        let first = proper_plural(days as i64, "day");
        let second = proper_plural(hours as i64, "hour");
        first.concat(" and ").concat(second.as_str())
    } else if seconds >= 3600 {
        let hours = seconds / 3600;
        let minutes = (seconds % 3600) / 60;
        let first = proper_plural(hours as i64, "hour");
        let second = proper_plural(minutes as i64, "minute");
        first.concat(" and ").concat(second.as_str())
    } else if seconds >= 60 {
        let minutes = seconds / 60;
        proper_plural(minutes as i64, "minute")
    } else {
        "less than a minute".to_owned()
    }
}


/// Adds a line to the lines.
fn push_line(lines: &mut Vec<String>, line: String)
    ensures
        texts(final(lines)@) == texts(old(lines)@).push(line@),
{
    lines.push(line);
    proof {
        assert(texts(lines@) =~= texts(old(lines)@).push(line@));
    }
}

/// Adds lines to the lines.
fn push_lines(lines: &mut Vec<String>, more: Vec<String>)
    ensures
        texts(final(lines)@) == texts(old(lines)@) + texts(more@),
{
    let mut more = more;
    let ghost added = texts(more@);
    lines.append(&mut more);
    proof {
        assert(texts(lines@) =~= texts(old(lines)@) + added);
    }
}

/// The text for a karma total: the number, or a question mark where there
/// is none.
pub open spec fn karma_total_text(karma: Option<i32>) -> Seq<char> {
    match karma {
        Some(k) => decimal(k as int),
        None => "?"@,
    }
}

/// The text for the karma at which an update becomes stable: the number,
/// with a plus sign where it is positive, or a question mark where there is
/// none.
pub open spec fn stable_karma_text(karma: Option<i32>) -> Seq<char> {
    match karma {
        Some(k) => if k > 0 {
            "+"@ + decimal(k as int)
        } else {
            decimal(k as int)
        },
        None => "?"@,
    }
}

/// The text for a date, or `missing` where there is none.
pub open spec fn date_text(date: Option<Timestamp>, missing: Seq<char>) -> Seq<char> {
    match date {
        Some(date) => date.text@,
        None => missing,
    }
}

/// The middle line of the banner: the alias between two number signs at
/// each end, centred by spaces; the alias alone where it leaves no room
/// for that.
pub open spec fn banner_header(alias: Seq<char>, width: int) -> Seq<char> {
    let spaces = width - 4 - byte_len(alias);
    if byte_len(alias) > width - 6 {
        alias
    } else {
        "##"@ + repeated(' ', spaces / 2) + alias + repeated(' ', spaces / 2 + spaces % 2)
            + "##"@
    }
}

/// The banner above an update: its alias between two lines of number signs
/// as wide as the terminal.
pub open spec fn banner(alias: Seq<char>, width: int) -> Seq<char> {
    repeated('#', width) + "\n"@ + banner_header(alias, width) + "\n"@ + repeated('#', width)
}

/// The line below the title: dashes as long as the title, but no longer
/// than the terminal is wide.
pub open spec fn title_rule(title: Seq<char>, width: int) -> Seq<char> {
    if byte_len(title) < width {
        repeated('-', byte_len(title) as int)
    } else {
        repeated('-', width)
    }
}

/// The head of an update's text: alias, title and notes. With the width of
/// the terminal at hand the alias stands in a banner, and title and notes
/// are broken into lines that fit.
pub open spec fn heading_lines(update: Update, width: Option<usize>) -> Seq<Seq<char>> {
    match width {
        Some(w) => seq![
            banner(update.alias@, w as int),
            ""@,
            filled(update.title@, (w - 1) as usize),
            title_rule(update.title@, w as int),
            ""@,
            filled(trimmed(update.notes@), (w - 1) as usize),
        ],
        None => seq![
            "## "@ + update.alias@ + " ##"@,
            ""@,
            update.title@,
            ""@,
            update.notes@,
        ],
    }
}

/// The table of an update's properties.
pub open spec fn table_lines(update: Update) -> Seq<Seq<char>> {
    seq![
        "URL:            https://bodhi.fedoraproject.org/updates/"@ + update.alias@,
        "Update type:    "@ + update.update_type@,
        "Submitted:      "@ + date_text(update.date_submitted, "(None)"@),
        "Pushed:         "@ + date_text(update.date_pushed, "(not yet pushed)"@),
        "Submitter:      "@ + update.user@,
        "Karma:          "@ + karma_total_text(update.karma),
        "Stable karma:   "@ + stable_karma_text(update.stable_karma),
        "Unstable karma: "@ + karma_total_text(update.unstable_karma),
    ]
}

/// The lines for one bug: its address, and below it the title where the
/// bug has one.
pub open spec fn bug_lines(bug: Bug, width: Option<usize>) -> Seq<Seq<char>> {
    let first = seq!["- "@ + bug.url@];
    match bug.title {
        Some(title) => match width {
            Some(w) => first.push(indented(filled(trimmed(title@), (w - 3) as usize), "  "@)),
            None => first.push("  "@ + title@),
        },
        None => first,
    }
}

/// The lines for the bugs, in order.
pub open spec fn all_bug_lines(bugs: Seq<Bug>, width: Option<usize>) -> Seq<Seq<char>>
    decreases bugs.len(),
{
    if bugs.len() == 0 {
        Seq::empty()
    } else {
        all_bug_lines(bugs.drop_last(), width) + bug_lines(bugs.last(), width)
    }
}

/// The part of the text on the bugs of an update; nothing where the update
/// has none.
pub open spec fn bugs_section(bugs: Seq<Bug>, width: Option<usize>) -> Seq<Seq<char>> {
    if bugs.len() == 0 {
        Seq::empty()
    } else {
        seq!["Associated bugs:"@] + all_bug_lines(bugs, width) + seq![""@]
    }
}

/// The lines for the test cases, in order: the address of each.
pub open spec fn all_test_case_lines(cases: Seq<TestCase>) -> Seq<Seq<char>> {
    cases.map_values(|case: TestCase| "- "@ + case.url@)
}

/// The part of the text on the test cases of an update; nothing where the
/// update has none.
pub open spec fn test_cases_section(cases: Option<Vec<TestCase>>) -> Seq<Seq<char>> {
    match cases {
        Some(cases) => if cases@.len() == 0 {
            Seq::empty()
        } else {
            seq!["Associated test cases:"@] + all_test_case_lines(cases@) + seq![""@]
        },
        None => Seq::empty(),
    }
}

/// The summary of the package that a build is of: the one that was added
/// last for the package's name.
pub open spec fn summary_of(build: Seq<char>, summaries: Seq<(Seq<char>, Seq<char>)>) -> Option<
    Seq<char>,
> {
    match nvr_parts(build) {
        Some((name, version, release)) => if values_for(summaries, name).len() > 0 {
            Some(values_for(summaries, name).last())
        } else {
            None
        },
        None => None,
    }
}

/// The lines for one installed package: the package, its summary where one
/// is known, and how long ago it was installed where that is known.
pub open spec fn package_lines(
    build: Seq<char>,
    summaries: Seq<(Seq<char>, Seq<char>)>,
    times: Seq<(Seq<char>, i64)>,
    now: i64,
) -> Seq<Seq<char>> {
    let first = seq!["- "@ + build];
    let second = match summary_of(build, summaries) {
        Some(summary) => first.push("  "@ + summary),
        None => first,
    };
    match first_time(times, build) {
        Some(then) => second.push(
            "  installed "@ + duration_text(elapsed(now as int, then as int)) + " ago"@,
        ),
        None => second,
    }
}

/// The lines for the installed packages, in order.
pub open spec fn all_package_lines(
    builds: Seq<Seq<char>>,
    summaries: Seq<(Seq<char>, Seq<char>)>,
    times: Seq<(Seq<char>, i64)>,
    now: i64,
) -> Seq<Seq<char>>
    decreases builds.len(),
{
    if builds.len() == 0 {
        Seq::empty()
    } else {
        all_package_lines(builds.drop_last(), summaries, times, now) + package_lines(
            builds.last(),
            summaries,
            times,
            now,
        )
    }
}

/// The comments in the order of their time, where a comment that has the
/// time of `comment` or an earlier one stays before it.
pub open spec fn insert_by_time(sorted: Seq<Comment>, comment: Comment) -> Seq<Comment>
    decreases sorted.len(),
{
    if sorted.len() == 0 {
        seq![comment]
    } else if sorted.last().timestamp.seconds <= comment.timestamp.seconds {
        sorted.push(comment)
    } else {
        insert_by_time(sorted.drop_last(), comment).push(sorted.last())
    }
}

/// The comments that are shown: those that the update server did not write
/// itself, in the order of their time; comments of one time keep their
/// order.
pub open spec fn shown_comments(comments: Seq<Comment>) -> Seq<Comment>
    decreases comments.len(),
{
    if comments.len() == 0 {
        Seq::empty()
    } else if comments.last().user@ == "bodhi"@ {
        shown_comments(comments.drop_last())
    } else {
        insert_by_time(shown_comments(comments.drop_last()), comments.last())
    }
}

/// The lines for one comment: who wrote it, when, and with what karma, and
/// below that the text.
pub open spec fn comment_lines(comment: Comment, width: Option<usize>) -> Seq<Seq<char>> {
    let first = seq![
        "- "@ + comment.user@ + " ("@ + comment.timestamp.text@ + "): "@ + karma_text(
            comment.karma,
        ),
    ];
    match width {
        Some(w) => if trimmed(comment.text@).len() == 0 {
            first
        } else {
            first.push(indented(filled(trimmed(comment.text@), (w - 3) as usize), "  "@))
        },
        None => first.push(trimmed(comment.text@)),
    }
}

/// The lines for the comments, in order.
pub open spec fn all_comment_lines(comments: Seq<Comment>, width: Option<usize>) -> Seq<
    Seq<char>,
>
    decreases comments.len(),
{
    if comments.len() == 0 {
        Seq::empty()
    } else {
        all_comment_lines(comments.drop_last(), width) + comment_lines(comments.last(), width)
    }
}

/// The part of the text on earlier comments; nothing where no comment is
/// shown.
pub open spec fn comments_section(comments: Option<Vec<Comment>>, width: Option<usize>) -> Seq<
    Seq<char>,
> {
    match comments {
        Some(comments) => if shown_comments(comments@).len() == 0 {
            Seq::empty()
        } else {
            seq![""@, "Previous comments:"@] + all_comment_lines(
                shown_comments(comments@),
                width,
            )
        },
        None => Seq::empty(),
    }
}

/// The text in which an update is shown, line by line: heading, table of
/// properties, bugs, test cases, the installed packages of the update with
/// summary and time of installation, and the comments of other users.
pub open spec fn update_lines(
    update: Update,
    builds: Seq<Seq<char>>,
    summaries: Seq<(Seq<char>, Seq<char>)>,
    times: Seq<(Seq<char>, i64)>,
    width: Option<usize>,
    now: i64,
) -> Seq<Seq<char>> {
    seq![""@] + heading_lines(update, width) + seq![""@] + table_lines(update) + seq![""@]
        + bugs_section(update.bugs@, width) + test_cases_section(update.test_cases)
        + seq!["Locally installed packages contained in this update:"@] + all_package_lines(
        builds,
        summaries,
        times,
        now,
    ) + comments_section(update.comments, width) + seq![""@]
}


/// The number of bytes that a text takes.
pub fn text_len(s: &str) -> (n: usize)
    ensures
        n == byte_len(s@),
{
    s.as_bytes().len()
}


/// The banner above an update.
pub fn banner_text(alias: &str, width: usize) -> (res: String)
    requires
        width >= 6,
    ensures
        res@ == banner(alias@, width as int),
{
    let boxie = repeat_char('#', width);
    let len = text_len(alias);
    let header = if len > width - 6 {
        alias.to_owned()
    } else {
        let spaces = width - 4 - len;
        let lspaces = repeat_char(' ', spaces / 2);
        let rspaces = repeat_char(' ', (spaces / 2) + (spaces % 2));
        "##".to_owned().concat(lspaces.as_str()).concat(alias).concat(rspaces.as_str()).concat(
            "##",
        )
    };
    boxie.clone().concat("\n").concat(header.as_str()).concat("\n").concat(boxie.as_str())
}

/// The line of dashes below the title.
pub fn title_rule_text(title: &str, width: usize) -> (res: String)
    ensures
        res@ == title_rule(title@, width as int),
{
    let title_w = text_len(title);
    if title_w < width {
        repeat_char('-', title_w)
    } else {
        repeat_char('-', width)
    }
}

/// The head of an update's text.
pub fn heading_part(update: &Update, width: Option<usize>) -> (lines: Vec<String>)
    requires
        width matches Some(w) ==> w >= 6,
    ensures
        texts(lines@) == heading_lines(*update, width),
{
    let mut lines: Vec<String> = Vec::new();
    assert(texts(lines@) =~= Seq::<Seq<char>>::empty());
    match width {
        Some(w) => {
            push_line(&mut lines, banner_text(update.alias.as_str(), w));
            push_line(&mut lines, "".to_owned());
            push_line(&mut lines, fill(update.title.as_str(), w - 1));
            push_line(&mut lines, title_rule_text(update.title.as_str(), w));
            push_line(&mut lines, "".to_owned());
            let notes = trim(update.notes.as_str());
            push_line(&mut lines, fill(notes.as_str(), w - 1));
            assert(texts(lines@) =~= heading_lines(*update, width));
        },
        None => {
            push_line(&mut lines, text3("## ", update.alias.as_str(), " ##"));
            push_line(&mut lines, "".to_owned());
            push_line(&mut lines, update.title.clone());
            push_line(&mut lines, "".to_owned());
            push_line(&mut lines, update.notes.clone());
            assert(texts(lines@) =~= heading_lines(*update, width));
        },
    }
    lines
}

/// The text for a karma total.
pub fn karma_total(karma: Option<i32>) -> (res: String)
    ensures
        res@ == karma_total_text(karma),
{
    match karma {
        Some(karma) => i64_to_string(karma as i64),
        None => "?".to_owned(),
    }
}

/// The text for the karma at which an update becomes stable.
pub fn stable_karma(karma: Option<i32>) -> (res: String)
    ensures
        res@ == stable_karma_text(karma),
{
    match karma {
        Some(karma) => {
            if karma > 0 {
                text2("+", i64_to_string(karma as i64).as_str())
            } else {
                // this should never happen, but better print weird things than wrong things
                i64_to_string(karma as i64)
            }
        },
        None => "?".to_owned(),
    }
}

/// The text for a date, or `missing` where there is none.
fn date_or(date: &Option<Timestamp>, missing: &str) -> (res: String)
    ensures
        res@ == date_text(*date, missing@),
{
    match date {
        Some(date) => date.text.clone(),
        None => missing.to_owned(),
    }
}

/// The table of an update's properties.
pub fn table_part(update: &Update) -> (lines: Vec<String>)
    ensures
        texts(lines@) == table_lines(*update),
{
    let mut lines: Vec<String> = Vec::new();
    assert(texts(lines@) =~= Seq::<Seq<char>>::empty());
    push_line(
        &mut lines,
        text2("URL:            https://bodhi.fedoraproject.org/updates/", update.alias.as_str()),
    );
    push_line(&mut lines, text2("Update type:    ", update.update_type.as_str()));
    push_line(
        &mut lines,
        text2("Submitted:      ", date_or(&update.date_submitted, "(None)").as_str()),
    );
    push_line(
        &mut lines,
        text2("Pushed:         ", date_or(&update.date_pushed, "(not yet pushed)").as_str()),
    );
    push_line(&mut lines, text2("Submitter:      ", update.user.as_str()));
    push_line(&mut lines, text2("Karma:          ", karma_total(update.karma).as_str()));
    push_line(&mut lines, text2("Stable karma:   ", stable_karma(update.stable_karma).as_str()));
    push_line(&mut lines, text2("Unstable karma: ", karma_total(update.unstable_karma).as_str()));
    assert(texts(lines@) =~= table_lines(*update));
    lines
}

/// The part of the text on the bugs of an update.
pub fn bug_part(bugs: &Vec<Bug>, width: Option<usize>) -> (lines: Vec<String>)
    requires
        width matches Some(w) ==> w >= 6,
    ensures
        texts(lines@) == bugs_section(bugs@, width),
{
    let mut lines: Vec<String> = Vec::new();
    assert(texts(lines@) =~= Seq::<Seq<char>>::empty());
    if bugs.len() == 0 {
        return lines;
    }
    push_line(&mut lines, "Associated bugs:".to_owned());
    let mut i: usize = 0;
    assert(bugs@.take(0) =~= Seq::<Bug>::empty());
    assert(texts(lines@) =~= seq!["Associated bugs:"@] + all_bug_lines(bugs@.take(0), width));
    while i < bugs.len()
        invariant
            i <= bugs.len(),
            width matches Some(w) ==> w >= 6,
            texts(lines@) == seq!["Associated bugs:"@] + all_bug_lines(
                bugs@.take(i as int),
                width,
            ),
        decreases bugs.len() - i,
    {
        let bug = &bugs[i];
        let ghost before = texts(lines@);
        proof {
            assert(bugs@.take(i + 1).drop_last() =~= bugs@.take(i as int));
            assert(bugs@.take(i + 1).last() == *bug);
        }
        push_line(&mut lines, text2("- ", bug.url.as_str()));
        if let Some(title) = &bug.title {
            // make sure bug title doesn't contain words that are split across lines
            match width {
                Some(w) => {
                    let trimmed_title = trim(title.as_str());
                    push_line(&mut lines, wrapped_block(trimmed_title.as_str(), w - 3));
                },
                None => {
                    push_line(&mut lines, text2("  ", title.as_str()));
                },
            }
        }
        proof {
            assert(texts(lines@) =~= before + bug_lines(*bug, width));
            assert(texts(lines@) =~= seq!["Associated bugs:"@] + all_bug_lines(
                bugs@.take(i + 1),
                width,
            ));
        }
        i += 1;
    }
    proof {
        assert(bugs@.take(i as int) =~= bugs@);
    }
    push_line(&mut lines, "".to_owned());
    assert(texts(lines@) =~= bugs_section(bugs@, width));
    lines
}

/// The part of the text on the test cases of an update.
pub fn test_case_part(cases: &Option<Vec<TestCase>>) -> (lines: Vec<String>)
    ensures
        texts(lines@) == test_cases_section(*cases),
{
    let mut lines: Vec<String> = Vec::new();
    assert(texts(lines@) =~= Seq::<Seq<char>>::empty());
    match cases {
        Some(ts) => {
            if ts.len() == 0 {
                return lines;
            }
            push_line(&mut lines, "Associated test cases:".to_owned());
            let mut i: usize = 0;
            assert(texts(lines@) =~= seq!["Associated test cases:"@] + all_test_case_lines(
                ts@,
            ).take(0));
            while i < ts.len()
                invariant
                    i <= ts.len(),
                    texts(lines@) == seq!["Associated test cases:"@] + all_test_case_lines(
                        ts@,
                    ).take(i as int),
                decreases ts.len() - i,
            {
                let ghost before = texts(lines@);
                push_line(&mut lines, text2("- ", ts[i].url.as_str()));
                proof {
                    assert(texts(lines@) =~= seq!["Associated test cases:"@]
                        + all_test_case_lines(ts@).take(i + 1));
                }
                i += 1;
            }
            proof {
                assert(all_test_case_lines(ts@).take(i as int) =~= all_test_case_lines(ts@));
            }
            push_line(&mut lines, "".to_owned());
            assert(texts(lines@) =~= test_cases_section(*cases));
            lines
        },
        None => lines,
    }
}

/// The message for a build that is no name-version-release string.
pub open spec fn build_error(build: Seq<char>) -> Seq<char> {
    "Failed to parse build NVR: "@ + build
}

/// The lines for the installed packages of an update. Fails with the
/// message for the first build that is no name-version-release string.
pub fn package_part(
    builds: &Vec<&str>,
    summaries: &BuildIndex,
    install_times: &InstallTimes,
    now: i64,
) -> (res: Result<Vec<String>, String>)
    ensures
        match res {
            Ok(lines) => {
                &&& forall|i: int|
                    0 <= i < builds.len() ==> nvr_parts(#[trigger] builds@[i]@) is Some
                &&& texts(lines@) == all_package_lines(
                    builds@.map_values(|b: &str| b@),
                    summaries@,
                    install_times@,
                    now,
                )
            },
            Err(msg) => exists|k: int|
                {
                    &&& 0 <= k < builds.len()
                    &&& forall|j: int| 0 <= j < k ==> nvr_parts(#[trigger] builds@[j]@) is Some
                    &&& nvr_parts(builds@[k]@) is None
                    &&& msg@ == build_error(#[trigger] builds@[k]@)
                },
        },
{
    let ghost all = builds@.map_values(|b: &str| b@);
    let mut lines: Vec<String> = Vec::new();
    assert(texts(lines@) =~= Seq::<Seq<char>>::empty());
    assert(all.take(0) =~= Seq::<Seq<char>>::empty());
    let mut i: usize = 0;
    while i < builds.len()
        invariant
            i <= builds.len(),
            all == builds@.map_values(|b: &str| b@),
            forall|j: int| 0 <= j < i ==> nvr_parts(#[trigger] builds@[j]@) is Some,
            texts(lines@) == all_package_lines(all.take(i as int), summaries@, install_times@, now),
        decreases builds.len() - i,
    {
        let build = builds[i];
        let ghost before = texts(lines@);
        proof {
            assert(all.take(i + 1).drop_last() =~= all.take(i as int));
            assert(all.take(i + 1).last() == build@);
        }
        let name = match parse_nvr(build) {
            Ok((name, _, _)) => name,
            Err(_) => {
                return Err(text2("Failed to parse build NVR: ", build));
            },
        };
        let summary = summaries.last(name);
        let install_time = install_times.get(build);
        push_line(&mut lines, text2("- ", build));
        if let Some(string) = summary {
            push_line(&mut lines, text2("  ", string));
        }
        if let Some(then) = install_time {
            let ago = pretty_duration(duration_until_now(now, then));
            push_line(&mut lines, text3("  installed ", ago.as_str(), " ago"));
        }
        proof {
            assert(texts(lines@) =~= before + package_lines(
                build@,
                summaries@,
                install_times@,
                now,
            ));
        }
        i += 1;
    }
    proof {
        assert(all.take(i as int) =~= all);
    }
    Ok(lines)
}

/// Putting a comment in its place by time is putting it at position `at`,
/// where all comments from there on are later, and the comment before is
/// not.
proof fn lemma_insert_by_time(sorted: Seq<Comment>, comment: Comment, at: int)
    requires
        0 <= at <= sorted.len(),
        forall|q: int|
            at <= q < sorted.len() ==> (#[trigger] sorted[q]).timestamp.seconds
                > comment.timestamp.seconds,
        at > 0 ==> sorted[at - 1].timestamp.seconds <= comment.timestamp.seconds,
    ensures
        insert_by_time(sorted, comment) == sorted.insert(at, comment),
    decreases sorted.len(),
{
    if sorted.len() == 0 {
        assert(sorted.insert(at, comment) =~= seq![comment]);
    } else if at == sorted.len() {
        assert(sorted.insert(at, comment) =~= sorted.push(comment));
    } else {
        let head = sorted.drop_last();
        assert(sorted.last() == sorted[sorted.len() - 1]);
        assert forall|q: int| at <= q < head.len() implies (#[trigger] head[q]).timestamp.seconds
            > comment.timestamp.seconds by {
            assert(head[q] == sorted[q]);
        }
        lemma_insert_by_time(head, comment, at);
        assert(sorted.insert(at, comment) =~= head.insert(at, comment).push(sorted.last()));
    }
}

/// The comments that are shown, in the order in which they are shown.
pub fn comments_to_show(comments: &Vec<Comment>) -> (shown: Vec<&Comment>)
    ensures
        shown@.map_values(|c: &Comment| *c) == shown_comments(comments@),
{
    let mut shown: Vec<&Comment> = Vec::new();
    let mut i: usize = 0;
    assert(comments@.take(0) =~= Seq::<Comment>::empty());
    assert(shown@.map_values(|c: &Comment| *c) =~= Seq::<Comment>::empty());
    while i < comments.len()
        invariant
            i <= comments.len(),
            shown@.map_values(|c: &Comment| *c) == shown_comments(comments@.take(i as int)),
        decreases comments.len() - i,
    {
        let comment = &comments[i];
        let ghost before = shown@.map_values(|c: &Comment| *c);
        proof {
            assert(comments@.take(i + 1).drop_last() =~= comments@.take(i as int));
            assert(comments@.take(i + 1).last() == *comment);
        }
        if !str_eq(comment.user.as_str(), "bodhi") {
            let mut at: usize = shown.len();
            while at > 0 && shown[at - 1].timestamp.seconds > comment.timestamp.seconds
                invariant
                    at <= shown.len(),
                    before == shown@.map_values(|c: &Comment| *c),
                    forall|q: int|
                        at <= q < shown.len() ==> (#[trigger] before[q]).timestamp.seconds
                            > comment.timestamp.seconds,
                decreases at,
            {
                at -= 1;
            }
            shown.insert(at, comment);
            proof {
                if at > 0 {
                    assert(before[at - 1].timestamp.seconds <= comment.timestamp.seconds);
                }
                lemma_insert_by_time(before, *comment, at as int);
                assert(shown@.map_values(|c: &Comment| *c) =~= before.insert(at as int, *comment));
            }
        }
        i += 1;
    }
    proof {
        assert(comments@.take(i as int) =~= comments@);
    }
    shown
}

/// The part of the text on earlier comments.
pub fn comment_part(comments: &Option<Vec<Comment>>, width: Option<usize>) -> (lines: Vec<String>)
    requires
        width matches Some(w) ==> w >= 6,
    ensures
        texts(lines@) == comments_section(*comments, width),
{
    let mut lines: Vec<String> = Vec::new();
    assert(texts(lines@) =~= Seq::<Seq<char>>::empty());
    let all = match comments {
        Some(all) => all,
        None => {
            return lines;
        },
    };
    let sorted = comments_to_show(all);
    let ghost shown = shown_comments(all@);
    if sorted.len() == 0 {
        return lines;
    }
    push_line(&mut lines, "".to_owned());
    push_line(&mut lines, "Previous comments:".to_owned());
    assert(shown.take(0) =~= Seq::<Comment>::empty());
    assert(texts(lines@) =~= seq![""@, "Previous comments:"@] + all_comment_lines(
        shown.take(0),
        width,
    ));
    let mut i: usize = 0;
    while i < sorted.len()
        invariant
            i <= sorted.len(),
            width matches Some(w) ==> w >= 6,
            shown == sorted@.map_values(|c: &Comment| *c),
            texts(lines@) == seq![""@, "Previous comments:"@] + all_comment_lines(
                shown.take(i as int),
                width,
            ),
        decreases sorted.len() - i,
    {
        let comment = sorted[i];
        let ghost before = texts(lines@);
        proof {
            assert(shown.take(i + 1).drop_last() =~= shown.take(i as int));
            assert(shown.take(i + 1).last() == *comment);
        }
        let karma = format_karma(comment.karma);
        let head = "- ".to_owned().concat(comment.user.as_str()).concat(" (").concat(
            comment.timestamp.text.as_str(),
        ).concat("): ").concat(karma.as_str());
        push_line(&mut lines, head);
        let trimmed_text = trim(comment.text.as_str());
        match width {
            Some(w) => {
                if trimmed_text.as_str().unicode_len() > 0 {
                    push_line(&mut lines, wrapped_block(trimmed_text.as_str(), w - 3));
                }
            },
            None => {
                push_line(&mut lines, trimmed_text);
            },
        }
        proof {
            assert(texts(lines@) =~= before + comment_lines(*comment, width));
        }
        i += 1;
    }
    proof {
        assert(shown.take(i as int) =~= shown);
    }
    lines
}

/// This helper function renders an update: it gives the text in which the
/// update is shown, line by line.
///
/// `builds` are the installed packages of the update, `width` is the width
/// of the terminal in columns where it is known, and `now` is the current
/// time in seconds since the start of 1970. Fails with the message for the
/// first of `builds` that is no name-version-release string.
pub fn render_update(
    update: &Update,
    builds: &Vec<&str>,
    summaries: &BuildIndex,
    install_times: &InstallTimes,
    width: Option<usize>,
    now: i64,
) -> (res: Result<Vec<String>, String>)
    requires
        width matches Some(w) ==> w >= 6,
    ensures
        match res {
            Ok(lines) => {
                &&& forall|i: int|
                    0 <= i < builds.len() ==> nvr_parts(#[trigger] builds@[i]@) is Some
                &&& texts(lines@) == update_lines(
                    *update,
                    builds@.map_values(|b: &str| b@),
                    summaries@,
                    install_times@,
                    width,
                    now,
                )
            },
            Err(msg) => exists|k: int|
                {
                    &&& 0 <= k < builds.len()
                    &&& forall|j: int| 0 <= j < k ==> nvr_parts(#[trigger] builds@[j]@) is Some
                    &&& nvr_parts(builds@[k]@) is None
                    &&& msg@ == build_error(#[trigger] builds@[k]@)
                },
        },
{
    let package_lines = match package_part(builds, summaries, install_times, now) {
        Ok(lines) => lines,
        Err(msg) => {
            return Err(msg);
        },
    };
    let mut lines: Vec<String> = Vec::new();
    assert(texts(lines@) =~= Seq::<Seq<char>>::empty());
    push_line(&mut lines, "".to_owned());
    push_lines(&mut lines, heading_part(update, width));
    push_line(&mut lines, "".to_owned());
    push_lines(&mut lines, table_part(update));
    push_line(&mut lines, "".to_owned());
    push_lines(&mut lines, bug_part(&update.bugs, width));
    push_lines(&mut lines, test_case_part(&update.test_cases));
    push_line(&mut lines, "Locally installed packages contained in this update:".to_owned());
    push_lines(&mut lines, package_lines);
    push_lines(&mut lines, comment_part(&update.comments, width));
    push_line(&mut lines, "".to_owned());
    proof {
        assert(texts(lines@) =~= update_lines(
            *update,
            builds@.map_values(|b: &str| b@),
            summaries@,
            install_times@,
            width,
            now,
        ));
    }
    Ok(lines)
}

} // verus!
