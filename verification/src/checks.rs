//! Which additional checks are to be run, and which updates of a list are
//! installed.

use vstd::prelude::*;
use crate::cli::Command;
use crate::config::{setting_enabled, tool_section, FedoraConfig};
use crate::index::{values_for, BuildIndex};
use crate::nvr::{lemma_parsed_text, NVR};
use crate::parse::{nevra_error, nvr_parts};
use crate::text::texts;
use crate::update::{build_texts, updates_of, Update};

verus! {

/// Whether updates in "pending" state are to be included: the command line
/// switch is given, or the configuration file asks for it.
pub fn do_check_pending(args: &Command, config: Option<&FedoraConfig>) -> (res: bool)
    ensures
        res == (args.check_pending || (tool_section(config) matches Some(section)
            && setting_enabled(section.check_pending))),
{
    args.check_pending || {
        if let Some(config) = config {
            if let Some(cfg) = &config.fuf {
                if let Some(b) = cfg.check_pending {
                    b
                } else {
                    false
                }
            } else {
                false
            }
        } else {
            false
        }
    }
}

/// Whether installed obsolete updates are to be looked for: the command
/// line switch is given, or the configuration file asks for it.
pub fn do_check_obsoletes(args: &Command, config: Option<&FedoraConfig>) -> (res: bool)
    ensures
        res == (args.check_obsoleted || (tool_section(config) matches Some(section)
            && setting_enabled(section.check_obsoleted))),
{
    args.check_obsoleted || {
        if let Some(config) = config {
            if let Some(cfg) = &config.fuf {
                if let Some(b) = cfg.check_obsoleted {
                    b
                } else {
                    false
                }
            } else {
                false
            }
        } else {
            false
        }
    }
}

/// Whether installed unpushed updates are to be looked for: the command
/// line switch is given, or the configuration file asks for it.
pub fn do_check_unpushed(args: &Command, config: Option<&FedoraConfig>) -> (res: bool)
    ensures
        res == (args.check_unpushed || (tool_section(config) matches Some(section)
            && setting_enabled(section.check_unpushed))),
{
    args.check_unpushed || {
        if let Some(config) = config {
            if let Some(cfg) = &config.fuf {
                if let Some(b) = cfg.check_unpushed {
                    b
                } else {
                    false
                }
            } else {
                false
            }
        } else {
            false
        }
    }
}


/// Whether one of the installed packages has the given name, version and
/// release.
pub open spec fn is_installed(
    installed: Seq<NVR>,
    parts: (Seq<char>, Seq<char>, Seq<char>),
) -> bool {
    exists|k: int| 0 <= k < installed.len() && installed[k]@ == parts
}

/// Whether a build string names an installed package.
pub open spec fn build_is_installed(build: Seq<char>, installed: Seq<NVR>) -> bool {
    nvr_parts(build) matches Some(parts) && is_installed(installed, parts)
}

/// Those of `builds` that name an installed package, in order.
pub open spec fn installed_builds(builds: Seq<Seq<char>>, installed: Seq<NVR>) -> Seq<Seq<char>>
    decreases builds.len(),
{
    if builds.len() == 0 {
        Seq::empty()
    } else if build_is_installed(builds.last(), installed) {
        installed_builds(builds.drop_last(), installed).push(builds.last())
    } else {
        installed_builds(builds.drop_last(), installed)
    }
}

/// Whether every one of `builds` is a name-version-release string.
pub open spec fn well_formed(builds: Seq<Seq<char>>) -> bool {
    forall|i: int| 0 <= i < builds.len() ==> nvr_parts(#[trigger] builds[i]) is Some
}

/// Whether `builds[k]` is the first of `builds` that is no
/// name-version-release string.
pub open spec fn first_malformed(builds: Seq<Seq<char>>, k: int) -> bool {
    &&& 0 <= k < builds.len()
    &&& nvr_parts(builds[k]) is None
    &&& well_formed(builds.take(k))
}

/// The updates that survive the matching: each update once for each of its
/// builds that is installed, in the order of the updates.
pub open spec fn matched_updates(updates: Seq<Update>, installed: Seq<NVR>) -> Seq<Update>
    decreases updates.len(),
{
    if updates.len() == 0 {
        Seq::empty()
    } else {
        matched_updates(updates.drop_last(), installed) + Seq::new(
            installed_builds(build_texts(updates.last()), installed).len(),
            |i: int| updates.last(),
        )
    }
}

/// The entries that the matching adds to the index: for each update, in
/// order, its alias with each of its builds that is installed.
pub open spec fn matched_entries(updates: Seq<Update>, installed: Seq<NVR>) -> Seq<
    (Seq<char>, Seq<char>),
>
    decreases updates.len(),
{
    if updates.len() == 0 {
        Seq::empty()
    } else {
        matched_entries(updates.drop_last(), installed) + installed_builds(
            build_texts(updates.last()),
            installed,
        ).map_values(|b: Seq<char>| (updates.last().alias@, b))
    }
}

/// Whether `installed` holds a package equal to `nvr`.
pub fn installed_contains(installed: &Vec<NVR>, nvr: &NVR) -> (res: bool)
    ensures
        res == is_installed(installed@, nvr@),
{
    let mut i: usize = 0;
    while i < installed.len()
        invariant
            i <= installed.len(),
            forall|k: int| 0 <= k < i ==> installed@[k]@ != nvr@,
        decreases installed.len() - i,
    {
        if installed[i] == *nvr {
            return true;
        }
        i += 1;
    }
    false
}

/// Parses every build of an update. Fails with the message for the first
/// build that is no name-version-release string.
pub fn parse_builds(update: &Update) -> (res: Result<Vec<NVR>, String>)
    ensures
        match res {
            Ok(nvrs) => {
                &&& well_formed(build_texts(*update))
                &&& nvrs.len() == update.builds.len()
                &&& forall|i: int|
                    0 <= i < nvrs.len() ==> nvr_parts(build_texts(*update)[i]) == Some(
                        #[trigger] nvrs[i]@,
                    )
            },
            Err(msg) => exists|k: int|
                first_malformed(build_texts(*update), k) && msg@ == nevra_error(
                    #[trigger] build_texts(*update)[k],
                ),
        },
{
    let mut nvrs: Vec<NVR> = Vec::new();
    let mut i: usize = 0;
    while i < update.builds.len()
        invariant
            i <= update.builds.len(),
            nvrs.len() == i,
            well_formed(build_texts(*update).take(i as int)),
            forall|k: int|
                0 <= k < i ==> nvr_parts(build_texts(*update)[k]) == Some(#[trigger] nvrs[k]@),
        decreases update.builds.len() - i,
    {
        match NVR::try_from(update.builds[i].as_str()) {
            Ok(nvr) => {
                nvrs.push(nvr);
            },
            Err(msg) => {
                proof {
                    assert(first_malformed(build_texts(*update), i as int));
                }
                return Err(msg);
            },
        }
        proof {
            let builds = build_texts(*update);
            assert forall|k: int| 0 <= k < builds.take(i + 1).len() implies nvr_parts(
                #[trigger] builds.take(i + 1)[k],
            ) is Some by {
                if k < i {
                    assert(builds.take(i as int)[k] == builds[k]);
                }
            }
        }
        i += 1;
    }
    proof {
        assert(build_texts(*update).take(i as int) =~= build_texts(*update));
    }
    Ok(nvrs)
}

/// Picks the updates of which a build is installed, and records under each
/// such update's alias which of its builds are.
///
/// An update is in the result once for each of its builds that is
/// installed, and the index holds at least one build for each update in the
/// result. A build that is no name-version-release string makes the whole
/// matching fail; the index then holds what the updates before the failing
/// one added.
pub fn filter_installed_updates<'a>(
    check_updates: &'a Vec<Update>,
    installed_packages: &Vec<NVR>,
    builds_for_update: &mut BuildIndex,
) -> (res: Result<Vec<&'a Update>, String>)
    ensures
        match res {
            Ok(matched) => {
                &&& forall|u: int|
                    0 <= u < check_updates.len() ==> well_formed(
                        build_texts(#[trigger] check_updates[u]),
                    )
                &&& updates_of(matched@) == matched_updates(check_updates@, installed_packages@)
                &&& final(builds_for_update)@ == old(builds_for_update)@ + matched_entries(
                    check_updates@,
                    installed_packages@,
                )
                &&& forall|i: int|
                    0 <= i < matched.len() ==> final(builds_for_update).spec_get(
                        (#[trigger] updates_of(matched@)[i]).alias@,
                    ).len() > 0
            },
            Err(msg) => exists|u: int, k: int|
                {
                    &&& 0 <= u < check_updates.len()
                    &&& forall|j: int|
                        0 <= j < u ==> well_formed(build_texts(#[trigger] check_updates[j]))
                    &&& first_malformed(build_texts(check_updates[u]), k)
                    &&& msg@ == nevra_error(#[trigger] build_texts(check_updates[u])[k])
                    &&& final(builds_for_update)@ == old(builds_for_update)@ + matched_entries(
                        check_updates@.take(u),
                        installed_packages@,
                    )
                },
        },
{
    let mut installed_matched: Vec<&Update> = Vec::new();
    let mut u: usize = 0;
    while u < check_updates.len()
        invariant
            u <= check_updates.len(),
            forall|j: int| 0 <= j < u ==> well_formed(build_texts(#[trigger] check_updates[j])),
            updates_of(installed_matched@) == matched_updates(
                check_updates@.take(u as int),
                installed_packages@,
            ),
            builds_for_update@ == old(builds_for_update)@ + matched_entries(
                check_updates@.take(u as int),
                installed_packages@,
            ),
        decreases check_updates.len() - u,
    {
        let update = &check_updates[u];
        let ghost builds = build_texts(*update);
        let nvrs = match parse_builds(update) {
            Ok(nvrs) => nvrs,
            Err(msg) => {
                proof {
                    let k = choose|k: int|
                        first_malformed(builds, k) && msg@ == nevra_error(#[trigger] builds[k]);
                    assert(first_malformed(build_texts(check_updates[u as int]), k));
                }
                return Err(msg);
            },
        };
        let ghost matched_before = updates_of(installed_matched@);
        let ghost index_before = builds_for_update@;
        let mut b: usize = 0;
        while b < nvrs.len()
            invariant
                b <= nvrs.len(),
                nvrs.len() == update.builds.len(),
                builds == build_texts(*update),
                forall|i: int|
                    0 <= i < nvrs.len() ==> nvr_parts(builds[i]) == Some(#[trigger] nvrs[i]@),
                updates_of(installed_matched@) == matched_before + Seq::new(
                    installed_builds(builds.take(b as int), installed_packages@).len(),
                    |i: int| *update,
                ),
                builds_for_update@ == index_before + installed_builds(
                    builds.take(b as int),
                    installed_packages@,
                ).map_values(|t: Seq<char>| (update.alias@, t)),
            decreases nvrs.len() - b,
        {
            let ghost found = installed_builds(builds.take(b as int), installed_packages@);
            let ghost refs_before = installed_matched@;
            proof {
                assert(builds.take(b + 1).drop_last() =~= builds.take(b as int));
                assert(builds.take(b + 1).last() == builds[b as int]);
            }
            if installed_contains(installed_packages, &nvrs[b]) {
                installed_matched.push(update);
                let text = nvrs[b].to_string();
                proof {
                    lemma_parsed_text(builds[b as int]);
                    assert(text@ == builds[b as int]);
                }
                builds_for_update.insert(update.alias.clone(), text);
                proof {
                    let found_now = installed_builds(builds.take(b + 1), installed_packages@);
                    assert(found_now == found.push(builds[b as int]));
                    assert(updates_of(installed_matched@) =~= updates_of(refs_before).push(*update));
                    assert(updates_of(installed_matched@) =~= matched_before + Seq::new(
                        found_now.len(),
                        |i: int| *update,
                    ));
                    assert(builds_for_update@ =~= index_before + found_now.map_values(
                        |t: Seq<char>| (update.alias@, t),
                    ));
                }
            }
            b += 1;
        }
        proof {
            assert(builds.take(b as int) =~= builds);
            let done = check_updates@.take(u + 1);
            assert(done.drop_last() =~= check_updates@.take(u as int));
            assert(done.last() == *update);
            assert(old(builds_for_update)@ + matched_entries(done, installed_packages@)
                =~= index_before + installed_builds(builds, installed_packages@).map_values(
                |t: Seq<char>| (update.alias@, t),
            ));
        }
        u += 1;
    }
    proof {
        assert(check_updates@.take(u as int) =~= check_updates@);
        assert forall|i: int| 0 <= i < installed_matched.len() implies builds_for_update.spec_get(
            (#[trigger] updates_of(installed_matched@)[i]).alias@,
        ).len() > 0 by {
            lemma_survivors_are_indexed(
                old(builds_for_update)@,
                check_updates@,
                installed_packages@,
                i,
            );
        }
    }
    Ok(installed_matched)
}

/// The binary packages that were built from `builds`, in the order of the
/// builds.
pub open spec fn binaries(builds: Seq<Seq<char>>, src_bin_map: Seq<(Seq<char>, Seq<char>)>) -> Seq<
    Seq<char>,
>
    decreases builds.len(),
{
    if builds.len() == 0 {
        Seq::empty()
    } else {
        binaries(builds.drop_last(), src_bin_map) + values_for(src_bin_map, builds.last())
    }
}

/// The binary packages of the installed builds of the update with the
/// given alias.
pub open spec fn installed_binaries(
    alias: Seq<char>,
    src_bin_map: Seq<(Seq<char>, Seq<char>)>,
    builds_for_update: Seq<(Seq<char>, Seq<char>)>,
) -> Seq<Seq<char>> {
    binaries(values_for(builds_for_update, alias), src_bin_map)
}

/// The lines that name an update and its installed binary packages.
pub open spec fn build_lines(
    update: Update,
    src_bin_map: Seq<(Seq<char>, Seq<char>)>,
    builds_for_update: Seq<(Seq<char>, Seq<char>)>,
) -> Seq<Seq<char>> {
    seq![" - "@ + update.title@ + ":"@] + installed_binaries(
        update.alias@,
        src_bin_map,
        builds_for_update,
    ).map_values(|binary: Seq<char>| "   - "@ + binary)
}

/// The lines that name the updates and their installed binary packages.
pub open spec fn all_build_lines(
    updates: Seq<Update>,
    src_bin_map: Seq<(Seq<char>, Seq<char>)>,
    builds_for_update: Seq<(Seq<char>, Seq<char>)>,
) -> Seq<Seq<char>>
    decreases updates.len(),
{
    if updates.len() == 0 {
        Seq::empty()
    } else {
        all_build_lines(updates.drop_last(), src_bin_map, builds_for_update) + build_lines(
            updates.last(),
            src_bin_map,
            builds_for_update,
        )
    }
}

/// The binary packages of the installed builds of an update, in the order
/// of the builds.
pub fn binaries_of_update<'a>(
    update: &Update,
    src_bin_map: &'a BuildIndex,
    builds_for_update: &BuildIndex,
) -> (res: Vec<&'a str>)
    ensures
        res@.map_values(|s: &str| s@) == installed_binaries(
            update.alias@,
            src_bin_map@,
            builds_for_update@,
        ),
{
    let builds = builds_for_update.get(update.alias.as_str());
    let ghost all = builds@.map_values(|s: &str| s@);
    let mut res: Vec<&'a str> = Vec::new();
    let mut i: usize = 0;
    proof {
        assert(all.take(0) =~= Seq::<Seq<char>>::empty());
        assert(res@.map_values(|s: &str| s@) =~= Seq::<Seq<char>>::empty());
    }
    while i < builds.len()
        invariant
            i <= builds.len(),
            all == builds@.map_values(|s: &str| s@),
            res@.map_values(|s: &str| s@) == binaries(all.take(i as int), src_bin_map@),
        decreases builds.len() - i,
    {
        let ghost before = res@.map_values(|s: &str| s@);
        let mut list = src_bin_map.get(builds[i]);
        let ghost added = list@.map_values(|s: &str| s@);
        proof {
            assert(all.take(i + 1).drop_last() =~= all.take(i as int));
            assert(all.take(i + 1).last() == builds[i as int]@);
        }
        res.append(&mut list);
        proof {
            assert(res@.map_values(|s: &str| s@) =~= before + added);
        }
        i += 1;
    }
    proof {
        assert(all.take(i as int) =~= all);
    }
    res
}

/// The lines that name the updates and, below each, its installed binary
/// packages.
pub fn update_build_lines(
    updates: &Vec<&Update>,
    src_bin_map: &BuildIndex,
    builds_for_update: &BuildIndex,
) -> (lines: Vec<String>)
    ensures
        texts(lines@) == all_build_lines(updates_of(updates@), src_bin_map@, builds_for_update@),
{
    let ghost all = updates_of(updates@);
    let mut lines: Vec<String> = Vec::new();
    let mut u: usize = 0;
    proof {
        assert(all.take(0) =~= Seq::<Update>::empty());
        assert(texts(lines@) =~= Seq::<Seq<char>>::empty());
    }
    while u < updates.len()
        invariant
            u <= updates.len(),
            all == updates_of(updates@),
            texts(lines@) == all_build_lines(all.take(u as int), src_bin_map@, builds_for_update@),
        decreases updates.len() - u,
    {
        let update = updates[u];
        let ghost before = texts(lines@);
        proof {
            assert(all.take(u + 1).drop_last() =~= all.take(u as int));
            assert(all.take(u + 1).last() == *update);
        }
        lines.push(" - ".to_owned().concat(update.title.as_str()).concat(":"));
        let found = binaries_of_update(update, src_bin_map, builds_for_update);
        let ghost names = found@.map_values(|s: &str| s@);
        let ghost head = texts(lines@);
        let mut b: usize = 0;
        proof {
            assert(head =~= before + seq![" - "@ + update.title@ + ":"@]);
            assert(texts(lines@) =~= head + names.map_values(
                |binary: Seq<char>| "   - "@ + binary,
            ).take(0));
        }
        while b < found.len()
            invariant
                b <= found.len(),
                names == found@.map_values(|s: &str| s@),
                texts(lines@) == head + names.map_values(
                    |binary: Seq<char>| "   - "@ + binary,
                ).take(b as int),
            decreases found.len() - b,
        {
            let line = "   - ".to_owned().concat(found[b]);
            let ghost so_far = texts(lines@);
            let ghost text = line@;
            lines.push(line);
            proof {
                let dashed = names.map_values(|binary: Seq<char>| "   - "@ + binary);
                assert(texts(lines@) =~= so_far.push(text));
                assert(names[b as int] == found@[b as int]@);
                assert(dashed[b as int] == text);
                assert(dashed.take(b + 1) =~= dashed.take(b as int).push(text));
                assert(texts(lines@) =~= head + dashed.take(b + 1));
            }
            b += 1;
        }
        proof {
            let dashed = names.map_values(|binary: Seq<char>| "   - "@ + binary);
            assert(dashed.take(b as int) =~= dashed);
            assert(texts(lines@) =~= before + build_lines(
                *update,
                src_bin_map@,
                builds_for_update@,
            ));
        }
        u += 1;
    }
    proof {
        assert(all.take(u as int) =~= all);
    }
    lines
}

/// Every update that survives the matching has an entry in the index: the
/// index holds at least one build for its alias.
pub proof fn lemma_survivors_are_indexed(
    index: Seq<(Seq<char>, Seq<char>)>,
    updates: Seq<Update>,
    installed: Seq<NVR>,
    i: int,
)
    requires
        0 <= i < matched_updates(updates, installed).len(),
    ensures
        values_for(
            index + matched_entries(updates, installed),
            matched_updates(updates, installed)[i].alias@,
        ).len() > 0,
    decreases updates.len(),
{
    let head = updates.drop_last();
    let last = updates.last();
    let found = installed_builds(build_texts(last), installed);
    let before = matched_updates(head, installed);
    let alias = matched_updates(updates, installed)[i].alias@;
    let added = found.map_values(|b: Seq<char>| (last.alias@, b));
    crate::index::lemma_values_for_add(index + matched_entries(head, installed), added, alias);
    assert(index + matched_entries(updates, installed) =~= (index + matched_entries(
        head,
        installed,
    )) + added);
    if i < before.len() {
        lemma_survivors_are_indexed(index, head, installed, i);
    } else {
        assert(alias == last.alias@);
        assert(found.len() > 0);
        assert(added.last().0 == alias);
    }
}

} // verus!
