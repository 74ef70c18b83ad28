//! The lists of ignored updates and ignored packages, and what they do to
//! the list of updates that is offered for review.

use vstd::prelude::*;
use crate::checks::{first_malformed, parse_builds, well_formed};
use crate::parse::{nevra_error, nvr_parts};
use crate::strings::{split, split_range, trim_bounds, trimmed};
use crate::text::{contains_text, sort_set, sorted, sorted_set, str_eq, texts, to_chars};
use crate::update::{aliases_of, build_texts, updates_of, Update};

verus! {

/// The updates and the packages that are not to be offered for review
/// again. Both lists stand for sets: what is added to one of them leaves it
/// sorted and without duplicates.
#[derive(Debug)]
pub struct IgnoreLists {
    /// aliases of the updates that were marked as ignored
    pub ignored_updates: Vec<String>,
    /// names of the packages of which no update is to be offered
    pub ignored_packages: Vec<String>,
}

/// The contents of the two lists.
pub struct IgnoreState {
    pub updates: Seq<Seq<char>>,
    pub packages: Seq<Seq<char>>,
}

impl View for IgnoreLists {
    type V = IgnoreState;

    open spec fn view(&self) -> IgnoreState {
        IgnoreState { updates: self.updates(), packages: self.packages() }
    }
}

impl Default for IgnoreLists {
    fn default() -> (lists: IgnoreLists)
        ensures
            lists.updates() == Seq::<Seq<char>>::empty(),
            lists.packages() == Seq::<Seq<char>>::empty(),
    {
        let lists = IgnoreLists { ignored_updates: Vec::new(), ignored_packages: Vec::new() };
        proof {
            assert(lists.updates() =~= Seq::<Seq<char>>::empty());
            assert(lists.packages() =~= Seq::<Seq<char>>::empty());
        }
        lists
    }
}

/// Those of `s` that are in `allowed`, in their order.
pub open spec fn retain_listed(s: Seq<Seq<char>>, allowed: Set<Seq<char>>) -> Seq<Seq<char>>
    decreases s.len(),
{
    if s.len() == 0 {
        Seq::empty()
    } else if allowed.contains(s.last()) {
        retain_listed(s.drop_last(), allowed).push(s.last())
    } else {
        retain_listed(s.drop_last(), allowed)
    }
}

/// The strings that hold at least one character.
pub open spec fn non_empty_texts() -> Set<Seq<char>> {
    Set::new(|t: Seq<char>| t.len() > 0)
}

/// Every string but `x`.
pub open spec fn all_but(x: Seq<char>) -> Set<Seq<char>> {
    Set::new(|t: Seq<char>| t != x)
}

/// The aliases that a legacy document lists: its lines, after the white
/// space around the whole text is dropped, without the empty ones.
pub open spec fn legacy_aliases(contents: Seq<char>) -> Seq<Seq<char>> {
    retain_listed(split(trimmed(contents), '\n'), non_empty_texts())
}

/// The name of the package that a build string names; empty where the
/// string is no name-version-release string.
pub open spec fn package_name(build: Seq<char>) -> Seq<char> {
    match nvr_parts(build) {
        Some(parts) => parts.0,
        None => Seq::empty(),
    }
}

/// The names of the packages that the builds name.
pub open spec fn package_names(builds: Seq<Seq<char>>) -> Seq<Seq<char>> {
    builds.map_values(|b: Seq<char>| package_name(b))
}

/// Whether an update is blocked: every one of its builds is of a package
/// that is ignored. An update without builds is blocked.
pub open spec fn is_blocked(update: Update, ignored_packages: Seq<Seq<char>>) -> bool {
    forall|i: int|
        0 <= i < update.builds.len() ==> ignored_packages.contains(
            #[trigger] package_names(build_texts(update))[i],
        )
}

/// The updates that are not blocked, in their order.
pub open spec fn without_blocked(updates: Seq<Update>, ignored_packages: Seq<Seq<char>>) -> Seq<
    Update,
>
    decreases updates.len(),
{
    if updates.len() == 0 {
        Seq::empty()
    } else if is_blocked(updates.last(), ignored_packages) {
        without_blocked(updates.drop_last(), ignored_packages)
    } else {
        without_blocked(updates.drop_last(), ignored_packages).push(updates.last())
    }
}

/// The updates whose alias is not among `ignored_updates`, in their order.
pub open spec fn without_ignored(updates: Seq<Update>, ignored_updates: Seq<Seq<char>>) -> Seq<
    Update,
>
    decreases updates.len(),
{
    if updates.len() == 0 {
        Seq::empty()
    } else if ignored_updates.contains(updates.last().alias@) {
        without_ignored(updates.drop_last(), ignored_updates)
    } else {
        without_ignored(updates.drop_last(), ignored_updates).push(updates.last())
    }
}

/// Whether every build of every update is a name-version-release string.
pub open spec fn all_well_formed(updates: Seq<Update>) -> bool {
    forall|u: int| 0 <= u < updates.len() ==> well_formed(build_texts(#[trigger] updates[u]))
}

/// Whether one of `updates` has the alias `alias`.
pub fn has_alias(updates: &Vec<&Update>, alias: &str) -> (res: bool)
    ensures
        res == aliases_of(updates_of(updates@)).contains(alias@),
{
    let ghost aliases = aliases_of(updates_of(updates@));
    let mut i: usize = 0;
    while i < updates.len()
        invariant
            i <= updates.len(),
            aliases == aliases_of(updates_of(updates@)),
            forall|k: int| 0 <= k < i ==> aliases[k] != alias@,
        decreases updates.len() - i,
    {
        if str_eq(updates[i].alias.as_str(), alias) {
            assert(aliases[i as int] == alias@);
            return true;
        }
        i += 1;
    }
    false
}

/// The names of the packages that the builds of an update name, in the
/// order of the builds. Fails with the message for the first build that is
/// no name-version-release string.
pub fn packages_in_update(update: &Update) -> (res: Result<Vec<String>, String>)
    ensures
        match res {
            Ok(names) => well_formed(build_texts(*update)) && texts(names@) == package_names(
                build_texts(*update),
            ),
            Err(msg) => exists|k: int|
                first_malformed(build_texts(*update), k) && msg@ == nevra_error(
                    #[trigger] build_texts(*update)[k],
                ),
        },
{
    let nvrs = match parse_builds(update) {
        Ok(nvrs) => nvrs,
        Err(msg) => {
            return Err(msg);
        },
    };
    let mut names: Vec<String> = Vec::new();
    let mut i: usize = 0;
    while i < nvrs.len()
        invariant
            i <= nvrs.len(),
            nvrs.len() == update.builds.len(),
            forall|k: int|
                0 <= k < nvrs.len() ==> nvr_parts(build_texts(*update)[k]) == Some(
                    #[trigger] nvrs[k]@,
                ),
            texts(names@) == package_names(build_texts(*update)).take(i as int),
        decreases nvrs.len() - i,
    {
        let ghost before = texts(names@);
        names.push(nvrs[i].n.clone());
        proof {
            assert(nvr_parts(build_texts(*update)[i as int]) == Some(nvrs[i as int]@));
            assert(texts(names@) =~= before.push(nvrs[i as int].n@));
            assert(texts(names@) =~= package_names(build_texts(*update)).take(i + 1));
        }
        i += 1;
    }
    proof {
        assert(package_names(build_texts(*update)).take(i as int) =~= package_names(
            build_texts(*update),
        ));
    }
    Ok(names)
}

/// Whether every one of `names` is in `list`.
pub fn all_listed(names: &Vec<String>, list: &Vec<String>) -> (res: bool)
    ensures
        res == (forall|i: int|
            0 <= i < names.len() ==> texts(list@).contains(#[trigger] texts(names@)[i])),
{
    let mut i: usize = 0;
    while i < names.len()
        invariant
            i <= names.len(),
            forall|k: int| 0 <= k < i ==> texts(list@).contains(#[trigger] texts(names@)[k]),
        decreases names.len() - i,
    {
        if !contains_text(list, names[i].as_str()) {
            assert(!texts(list@).contains(texts(names@)[i as int]));
            return false;
        }
        i += 1;
    }
    true
}

/// Drops the updates that are blocked: those of which every build is of an
/// ignored package. An update of which only some builds are stays.
///
/// Fails with the message for the first build, of the first update that has
/// one, that is no name-version-release string.
pub fn filter_blocked<'a>(survivors: Vec<&'a Update>, ignored: &IgnoreLists) -> (res: Result<
    Vec<&'a Update>,
    String,
>)
    ensures
        match res {
            Ok(kept) => {
                &&& all_well_formed(updates_of(survivors@))
                &&& updates_of(kept@) == without_blocked(updates_of(survivors@), ignored.packages())
                &&& forall|i: int|
                    0 <= i < kept.len() ==> !is_blocked(
                        #[trigger] updates_of(kept@)[i],
                        ignored.packages(),
                    )
            },
            Err(msg) => exists|u: int, k: int|
                {
                    &&& 0 <= u < survivors.len()
                    &&& all_well_formed(updates_of(survivors@).take(u))
                    &&& first_malformed(build_texts(updates_of(survivors@)[u]), k)
                    &&& msg@ == nevra_error(#[trigger] build_texts(updates_of(survivors@)[u])[k])
                },
        },
{
    let ghost all = updates_of(survivors@);
    let mut kept: Vec<&Update> = Vec::new();
    let mut u: usize = 0;
    while u < survivors.len()
        invariant
            u <= survivors.len(),
            all == updates_of(survivors@),
            all_well_formed(all.take(u as int)),
            updates_of(kept@) == without_blocked(all.take(u as int), ignored.packages()),
            forall|i: int|
                0 <= i < kept.len() ==> !is_blocked(
                    #[trigger] updates_of(kept@)[i],
                    ignored.packages(),
                ),
        decreases survivors.len() - u,
    {
        let update = survivors[u];
        let names = match packages_in_update(update) {
            Ok(names) => names,
            Err(msg) => {
                proof {
                    let k = choose|k: int|
                        first_malformed(build_texts(*update), k) && msg@ == nevra_error(
                            #[trigger] build_texts(*update)[k],
                        );
                    assert(first_malformed(build_texts(all[u as int]), k));
                }
                return Err(msg);
            },
        };
        let ghost kept_before = updates_of(kept@);
        proof {
            assert(all.take(u + 1).drop_last() =~= all.take(u as int));
            assert(all.take(u + 1).last() == *update);
            assert forall|j: int| 0 <= j < all.take(u + 1).len() implies well_formed(
                build_texts(#[trigger] all.take(u + 1)[j]),
            ) by {
                if j < u {
                    assert(all.take(u as int)[j] == all[j]);
                }
            }
        }
        let blocked = all_listed(&names, &ignored.ignored_packages);
        proof {
            assert(texts(names@).len() == update.builds.len());
            assert(blocked == is_blocked(*update, ignored.packages()));
        }
        if !blocked {
            kept.push(update);
            proof {
                assert(updates_of(kept@) =~= kept_before.push(*update));
                assert forall|i: int| 0 <= i < kept.len() implies !is_blocked(
                    #[trigger] updates_of(kept@)[i],
                    ignored.packages(),
                ) by {
                    if i < kept.len() - 1 {
                        assert(updates_of(kept@)[i] == kept_before[i]);
                    }
                }
            }
        }
        u += 1;
    }
    proof {
        assert(all.take(u as int) =~= all);
    }
    Ok(kept)
}

/// Drops the updates that were marked as ignored, unless `include_ignored`
/// asks for them too.
pub fn filter_ignored<'a>(
    survivors: Vec<&'a Update>,
    ignored: &IgnoreLists,
    include_ignored: bool,
) -> (kept: Vec<&'a Update>)
    ensures
        include_ignored ==> updates_of(kept@) == updates_of(survivors@),
        !include_ignored ==> updates_of(kept@) == without_ignored(
            updates_of(survivors@),
            ignored.updates(),
        ),
        !include_ignored ==> forall|i: int|
            0 <= i < kept.len() ==> !ignored.updates().contains(
                (#[trigger] updates_of(kept@)[i]).alias@,
            ),
{
    if include_ignored {
        return survivors;
    }
    let ghost all = updates_of(survivors@);
    let mut kept: Vec<&Update> = Vec::new();
    let mut u: usize = 0;
    while u < survivors.len()
        invariant
            u <= survivors.len(),
            all == updates_of(survivors@),
            updates_of(kept@) == without_ignored(all.take(u as int), ignored.updates()),
            forall|i: int|
                0 <= i < kept.len() ==> !ignored.updates().contains(
                    (#[trigger] updates_of(kept@)[i]).alias@,
                ),
        decreases survivors.len() - u,
    {
        let update = survivors[u];
        let ghost kept_before = updates_of(kept@);
        proof {
            assert(all.take(u + 1).drop_last() =~= all.take(u as int));
            assert(all.take(u + 1).last() == *update);
        }
        if !contains_text(&ignored.ignored_updates, update.alias.as_str()) {
            kept.push(update);
            proof {
                assert(updates_of(kept@) =~= kept_before.push(*update));
                assert forall|i: int| 0 <= i < kept.len() implies !ignored.updates().contains(
                    (#[trigger] updates_of(kept@)[i]).alias@,
                ) by {
                    if i < kept.len() - 1 {
                        assert(updates_of(kept@)[i] == kept_before[i]);
                    }
                }
            }
        }
        u += 1;
    }
    proof {
        assert(all.take(u as int) =~= all);
    }
    kept
}

/// A list under its heading: the heading, with ` none` after it where the
/// list is empty, then each item after a dash, then an empty line.
pub open spec fn listed(heading: Seq<char>, items: Seq<Seq<char>>) -> Seq<Seq<char>> {
    seq![
        if items.len() == 0 {
            heading + " none"@
        } else {
            heading
        },
    ] + items.map_values(|item: Seq<char>| "- "@ + item) + seq![""@]
}

/// A list under its heading, line by line.
pub fn list_lines(heading: &str, items: &Vec<String>) -> (lines: Vec<String>)
    ensures
        texts(lines@) == listed(heading@, texts(items@)),
{
    let mut lines: Vec<String> = Vec::new();
    let first = if items.len() == 0 {
        heading.to_owned().concat(" none")
    } else {
        heading.to_owned()
    };
    lines.push(first);
    let ghost dashed = texts(items@).map_values(|item: Seq<char>| "- "@ + item);
    proof {
        assert(texts(lines@) =~= seq![first@] + dashed.take(0));
    }
    let mut i: usize = 0;
    while i < items.len()
        invariant
            i <= items.len(),
            dashed == texts(items@).map_values(|item: Seq<char>| "- "@ + item),
            texts(lines@) == seq![first@] + dashed.take(i as int),
        decreases items.len() - i,
    {
        let line = "- ".to_owned().concat(items[i].as_str());
        let ghost so_far = texts(lines@);
        let ghost text = line@;
        lines.push(line);
        proof {
            assert(texts(lines@) =~= so_far.push(text));
            assert(dashed[i as int] == text);
            assert(dashed.take(i + 1) =~= dashed.take(i as int).push(text));
            assert(texts(lines@) =~= seq![first@] + dashed.take(i + 1));
        }
        i += 1;
    }
    let ghost before = texts(lines@);
    lines.push("".to_owned());
    proof {
        assert(dashed.take(i as int) =~= dashed);
        assert(texts(lines@) =~= listed(heading@, texts(items@)));
    }
    lines
}

impl IgnoreLists {
    /// The two lists as text, line by line: the ignored updates, then the
    /// ignored packages.
    pub fn listing(&self) -> (lines: Vec<String>)
        ensures
            texts(lines@) == listed("Ignored updates:"@, self.updates()) + listed(
                "Ignored packages:"@,
                self.packages(),
            ),
    {
        let mut lines = list_lines("Ignored updates:", &self.ignored_updates);
        let ghost first = texts(lines@);
        let mut second = list_lines("Ignored packages:", &self.ignored_packages);
        let ghost rest = texts(second@);
        lines.append(&mut second);
        proof {
            assert(texts(lines@) =~= first + rest);
        }
        lines
    }

    /// The aliases of the ignored updates.
    pub open spec fn updates(&self) -> Seq<Seq<char>> {
        texts(self.ignored_updates@)
    }

    /// The names of the ignored packages.
    pub open spec fn packages(&self) -> Seq<Seq<char>> {
        texts(self.ignored_packages@)
    }

    /// Drops the ignored updates that are not among `survivors`: what is no
    /// longer offered need not be remembered. The others keep their order.
    pub fn prune(&mut self, survivors: &Vec<&Update>)
        ensures
            final(self).updates() == retain_listed(
                old(self).updates(),
                aliases_of(updates_of(survivors@)).to_set(),
            ),
            final(self).ignored_packages == old(self).ignored_packages,
    {
        let ghost allowed = aliases_of(updates_of(survivors@)).to_set();
        let mut kept: Vec<String> = Vec::new();
        let mut i: usize = 0;
        while i < self.ignored_updates.len()
            invariant
                i <= self.ignored_updates.len(),
                *self == *old(self),
                allowed == aliases_of(updates_of(survivors@)).to_set(),
                texts(kept@) == retain_listed(self.updates().take(i as int), allowed),
            decreases self.ignored_updates.len() - i,
        {
            let ghost before = texts(kept@);
            proof {
                assert(self.updates().take(i + 1).drop_last() =~= self.updates().take(i as int));
            }
            if has_alias(survivors, self.ignored_updates[i].as_str()) {
                kept.push(self.ignored_updates[i].clone());
                proof {
                    assert(texts(kept@) =~= before.push(self.updates()[i as int]));
                }
            }
            i += 1;
        }
        proof {
            assert(self.updates().take(i as int) =~= self.updates());
        }
        self.ignored_updates = kept;
    }

    /// Marks an update as ignored: its alias joins the ignored updates. The
    /// list is a sorted set afterwards: an alias that was in it already is
    /// not in it twice.
    pub fn add_ignored_update(&mut self, alias: &str)
        ensures
            final(self).updates() == sorted_set(old(self).updates().push(alias@)),
            sorted(final(self).updates()),
            final(self).updates().no_duplicates(),
            forall|x: Seq<char>|
                #[trigger] final(self).updates().contains(x) <==> old(self).updates().contains(x)
                    || x == alias@,
            final(self).ignored_packages == old(self).ignored_packages,
    {
        let ghost before = self.updates();
        self.ignored_updates.push(alias.to_owned());
        let ghost joined = self.updates();
        proof {
            assert(joined =~= before.push(alias@));
        }
        sort_set(&mut self.ignored_updates);
        proof {
            assert forall|x: Seq<char>| #[trigger]
                self.updates().contains(x) <==> before.contains(x) || x == alias@ by {
                assert(self.updates().contains(x) <==> joined.contains(x));
                if joined.contains(x) {
                    let k = choose|k: int| 0 <= k < joined.len() && joined[k] == x;
                    if k < before.len() {
                        assert(before[k] == x);
                    }
                }
                if before.contains(x) {
                    let k = choose|k: int| 0 <= k < before.len() && before[k] == x;
                    assert(joined[k] == x);
                }
                if x == alias@ {
                    assert(joined[before.len() as int] == x);
                }
            }
        }
    }

    /// Marks packages as ignored: their names join the ignored packages. The
    /// list is a sorted set afterwards: a name that was in it already, or
    /// that is given more than once, is not in it twice.
    pub fn add_ignored_packages(&mut self, names: Vec<String>)
        ensures
            final(self).packages() == sorted_set(old(self).packages() + texts(names@)),
            sorted(final(self).packages()),
            final(self).packages().no_duplicates(),
            forall|x: Seq<char>|
                #[trigger] final(self).packages().contains(x) <==> old(self).packages().contains(
                    x,
                ) || texts(names@).contains(x),
            final(self).ignored_updates == old(self).ignored_updates,
    {
        let ghost before = self.packages();
        let mut names = names;
        let ghost added = texts(names@);
        self.ignored_packages.append(&mut names);
        let ghost joined = self.packages();
        proof {
            assert(joined =~= before + added);
        }
        sort_set(&mut self.ignored_packages);
        proof {
            assert forall|x: Seq<char>| #[trigger]
                self.packages().contains(x) <==> before.contains(x) || added.contains(x) by {
                assert(self.packages().contains(x) <==> joined.contains(x));
                if joined.contains(x) {
                    let k = choose|k: int| 0 <= k < joined.len() && joined[k] == x;
                    if k < before.len() {
                        assert(before[k] == x);
                    } else {
                        assert(added[k - before.len()] == x);
                    }
                }
                if before.contains(x) {
                    let k = choose|k: int| 0 <= k < before.len() && before[k] == x;
                    assert(joined[k] == x);
                }
                if added.contains(x) {
                    let k = choose|k: int| 0 <= k < added.len() && added[k] == x;
                    assert(joined[before.len() + k] == x);
                }
            }
        }
    }

    /// Adds one package to the ignored packages, unless it is among them
    /// already, and says whether it was added. Where it was, the list is a
    /// sorted set afterwards. The ignored updates stay as they are.
    pub fn add_ignored_package(&mut self, package: &str) -> (added: bool)
        ensures
            added == !old(self).packages().contains(package@),
            added ==> final(self).packages() == sorted_set(old(self).packages().push(package@)),
            added ==> sorted(final(self).packages()) && final(self).packages().no_duplicates(),
            forall|x: Seq<char>|
                #[trigger] final(self).packages().contains(x) <==> old(self).packages().contains(
                    x,
                ) || x == package@,
            !added ==> final(self).ignored_packages == old(self).ignored_packages,
            final(self).ignored_updates == old(self).ignored_updates,
    {
        if contains_text(&self.ignored_packages, package) {
            return false;
        }
        let ghost before = self.packages();
        self.ignored_packages.push(package.to_owned());
        let ghost joined = self.packages();
        proof {
            assert(joined =~= before.push(package@));
        }
        sort_set(&mut self.ignored_packages);
        proof {
            assert forall|x: Seq<char>| #[trigger]
                self.packages().contains(x) <==> before.contains(x) || x == package@ by {
                assert(self.packages().contains(x) <==> joined.contains(x));
                if joined.contains(x) {
                    let k = choose|k: int| 0 <= k < joined.len() && joined[k] == x;
                    if k < before.len() {
                        assert(before[k] == x);
                    }
                }
                if before.contains(x) {
                    let k = choose|k: int| 0 <= k < before.len() && before[k] == x;
                    assert(joined[k] == x);
                }
                if x == package@ {
                    assert(joined[before.len() as int] == x);
                }
            }
        }
        true
    }

    /// Takes one package out of the ignored packages, and says whether it
    /// was among them. The others keep their order.
    pub fn remove_ignored_package(&mut self, package: &str) -> (removed: bool)
        ensures
            removed == old(self).packages().contains(package@),
            final(self).packages() == retain_listed(old(self).packages(), all_but(package@)),
            !final(self).packages().contains(package@),
            final(self).ignored_updates == old(self).ignored_updates,
    {
        let removed = contains_text(&self.ignored_packages, package);
        let mut kept: Vec<String> = Vec::new();
        let mut i: usize = 0;
        while i < self.ignored_packages.len()
            invariant
                i <= self.ignored_packages.len(),
                *self == *old(self),
                texts(kept@) == retain_listed(self.packages().take(i as int), all_but(package@)),
                !texts(kept@).contains(package@),
            decreases self.ignored_packages.len() - i,
        {
            let ghost before = texts(kept@);
            proof {
                assert(self.packages().take(i + 1).drop_last() =~= self.packages().take(
                    i as int,
                ));
            }
            if !str_eq(self.ignored_packages[i].as_str(), package) {
                kept.push(self.ignored_packages[i].clone());
                proof {
                    assert(texts(kept@) =~= before.push(self.packages()[i as int]));
                    if texts(kept@).contains(package@) {
                        let k = choose|k: int|
                            0 <= k < texts(kept@).len() && texts(kept@)[k] == package@;
                        if k < before.len() {
                            assert(before[k] == package@);
                        }
                    }
                }
            }
            i += 1;
        }
        proof {
            assert(self.packages().take(i as int) =~= self.packages());
        }
        self.ignored_packages = kept;
        removed
    }
}

/// Reads a legacy document: a plain list of aliases, one on each line. Every
/// line that is not empty is an ignored update; no package is ignored.
pub fn legacy_ignore_lists(contents: &str) -> (lists: IgnoreLists)
    ensures
        lists.updates() == legacy_aliases(contents@),
        lists.packages() == Seq::<Seq<char>>::empty(),
{
    let chars = to_chars(contents);
    let (start, end) = trim_bounds(&chars);
    let lines = split_range(&chars, start, end, '\n');
    let mut updates: Vec<String> = Vec::new();
    let mut i: usize = 0;
    while i < lines.len()
        invariant
            i <= lines.len(),
            texts(updates@) == retain_listed(texts(lines@).take(i as int), non_empty_texts()),
        decreases lines.len() - i,
    {
        let ghost before = texts(updates@);
        proof {
            assert(texts(lines@).take(i + 1).drop_last() =~= texts(lines@).take(i as int));
        }
        if lines[i].as_str().unicode_len() > 0 {
            updates.push(lines[i].clone());
            proof {
                assert(texts(updates@) =~= before.push(texts(lines@)[i as int]));
            }
        }
        i += 1;
    }
    proof {
        assert(texts(lines@).take(i as int) =~= texts(lines@));
    }
    let lists = IgnoreLists { ignored_updates: updates, ignored_packages: Vec::new() };
    proof {
        assert(lists.packages() =~= Seq::<Seq<char>>::empty());
    }
    lists
}

/// What a stored document stands for. Where it could be read as a
/// structured document, `structured` holds what it says, and that is
/// the result; otherwise the text is read as a legacy document.
pub fn load_ignore_lists(structured: Option<IgnoreLists>, contents: &str) -> (lists: IgnoreLists)
    ensures
        structured matches Some(parsed) ==> lists == parsed,
        structured is None ==> lists.updates() == legacy_aliases(contents@) && lists.packages()
            == Seq::<Seq<char>>::empty(),
{
    match structured {
        Some(parsed) => parsed,
        None => legacy_ignore_lists(contents),
    }
}

/// Pruning twice against the same updates drops no more than pruning once.
pub proof fn lemma_prune_idempotent(ignored: Seq<Seq<char>>, allowed: Set<Seq<char>>)
    ensures
        retain_listed(retain_listed(ignored, allowed), allowed) == retain_listed(ignored, allowed),
    decreases ignored.len(),
{
    if ignored.len() > 0 {
        lemma_prune_idempotent(ignored.drop_last(), allowed);
        if allowed.contains(ignored.last()) {
            let kept = retain_listed(ignored.drop_last(), allowed);
            assert(kept.push(ignored.last()).drop_last() =~= kept);
        }
    }
}

/// After pruning, an alias is ignored exactly if it was ignored before and
/// is the alias of one of the updates at hand.
pub proof fn lemma_prune_keeps_current(
    ignored: Seq<Seq<char>>,
    allowed: Set<Seq<char>>,
    a: Seq<char>,
)
    ensures
        retain_listed(ignored, allowed).contains(a) <==> ignored.contains(a) && allowed.contains(a),
    decreases ignored.len(),
{
    if ignored.len() > 0 {
        let head = ignored.drop_last();
        lemma_prune_keeps_current(head, allowed, a);
        let kept = retain_listed(head, allowed);
        let res = retain_listed(ignored, allowed);
        if res.contains(a) {
            let k = choose|k: int| 0 <= k < res.len() && res[k] == a;
            if k < kept.len() {
                assert(kept[k] == a);
                assert(kept.contains(a));
                let j = choose|j: int| 0 <= j < head.len() && head[j] == a;
                assert(ignored[j] == a);
            } else {
                assert(ignored.last() == a);
            }
        }
        if ignored.contains(a) && allowed.contains(a) {
            let j = choose|j: int| 0 <= j < ignored.len() && ignored[j] == a;
            if j < head.len() {
                assert(head[j] == a);
                assert(kept.contains(a));
                let k = choose|k: int| 0 <= k < kept.len() && kept[k] == a;
                assert(res[k] == a);
            } else {
                assert(res.last() == a);
            }
        }
    }
}

/// What is left after the blocked updates are dropped was there before, and
/// is not blocked.
pub proof fn lemma_without_blocked(
    updates: Seq<Update>,
    ignored_packages: Seq<Seq<char>>,
    update: Update,
)
    ensures
        without_blocked(updates, ignored_packages).contains(update) <==> updates.contains(update)
            && !is_blocked(update, ignored_packages),
    decreases updates.len(),
{
    if updates.len() > 0 {
        let head = updates.drop_last();
        lemma_without_blocked(head, ignored_packages, update);
        let kept = without_blocked(head, ignored_packages);
        let res = without_blocked(updates, ignored_packages);
        if res.contains(update) {
            let k = choose|k: int| 0 <= k < res.len() && res[k] == update;
            if k < kept.len() {
                assert(kept[k] == update);
                assert(kept.contains(update));
                let j = choose|j: int| 0 <= j < head.len() && head[j] == update;
                assert(updates[j] == update);
            } else {
                assert(updates.last() == update);
            }
        }
        if updates.contains(update) && !is_blocked(update, ignored_packages) {
            let j = choose|j: int| 0 <= j < updates.len() && updates[j] == update;
            if j < head.len() {
                assert(head[j] == update);
                assert(kept.contains(update));
                let k = choose|k: int| 0 <= k < kept.len() && kept[k] == update;
                assert(res[k] == update);
            } else {
                assert(res.last() == update);
            }
        }
    }
}

/// What is left after the ignored updates are dropped was there before, and
/// is not ignored.
pub proof fn lemma_without_ignored(
    updates: Seq<Update>,
    ignored_updates: Seq<Seq<char>>,
    update: Update,
)
    ensures
        without_ignored(updates, ignored_updates).contains(update) <==> updates.contains(update)
            && !ignored_updates.contains(update.alias@),
    decreases updates.len(),
{
    if updates.len() > 0 {
        let head = updates.drop_last();
        lemma_without_ignored(head, ignored_updates, update);
        let kept = without_ignored(head, ignored_updates);
        let res = without_ignored(updates, ignored_updates);
        if res.contains(update) {
            let k = choose|k: int| 0 <= k < res.len() && res[k] == update;
            if k < kept.len() {
                assert(kept[k] == update);
                assert(kept.contains(update));
                let j = choose|j: int| 0 <= j < head.len() && head[j] == update;
                assert(updates[j] == update);
            } else {
                assert(updates.last() == update);
            }
        }
        if updates.contains(update) && !ignored_updates.contains(update.alias@) {
            let j = choose|j: int| 0 <= j < updates.len() && updates[j] == update;
            if j < head.len() {
                assert(head[j] == update);
                assert(kept.contains(update));
                let k = choose|k: int| 0 <= k < kept.len() && kept[k] == update;
                assert(res[k] == update);
            } else {
                assert(res.last() == update);
            }
        }
    }
}

/// An update of which every build is of an ignored package is not among the
/// updates that are offered, whether or not ignored updates are asked for.
pub proof fn lemma_blocked_never_offered(
    updates: Seq<Update>,
    ignored: IgnoreState,
    update: Update,
)
    requires
        is_blocked(update, ignored.packages),
    ensures
        !without_blocked(updates, ignored.packages).contains(update),
        !without_ignored(without_blocked(updates, ignored.packages), ignored.updates).contains(
            update,
        ),
{
    lemma_without_blocked(updates, ignored.packages, update);
    lemma_without_ignored(without_blocked(updates, ignored.packages), ignored.updates, update);
}

} // verus!
