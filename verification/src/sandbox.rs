//! The profile of a sandbox that lets an agent write under a few directories only.
use crate::text::concat;
use crate::views::views;
use vstd::prelude::*;

verus! {

/// What comes before the rules: everything is allowed, but writing is not.
pub const PROFILE_HEAD: &'static str = "(version 1)\n(allow default)\n\n;; deny everywhere ...\n(deny file-write* file-link file-clone)\n\n;; ...but allow them under explicit subpaths...\n(allow file-write* file-link file-clone\n";

/// What comes behind the rules.
pub const PROFILE_TAIL: &'static str = "\n)\n";

/// The rule that allows writing under a directory.
pub open spec fn subpath_rule(path: Seq<char>) -> Seq<char> {
    "    (subpath \""@ + path + "\")\n"@
}

/// The rules for some directories, in order.
pub open spec fn subpath_rules(paths: Seq<Seq<char>>) -> Seq<char>
    decreases paths.len(),
{
    if paths.len() == 0 {
        Seq::empty()
    } else {
        subpath_rules(paths.drop_last()) + subpath_rule(paths.last())
    }
}

/// The directories under `home` that an agent writes to.
pub open spec fn own_directories(home: Seq<char>) -> Seq<Seq<char>> {
    seq![
        home + "/.goose"@,
        home + "/.local/share/goose"@,
        home + "/.config/goose"@,
        home + "/.local/state/goose"@,
        home + "/.cache/uv"@,
        home + "/.cache"@,
    ]
}

/// The profile: writing is allowed under the agent's own directories and the extra ones, and
/// nowhere else.
pub open spec fn profile(home: Seq<char>, extras: Seq<Seq<char>>) -> Seq<char> {
    PROFILE_HEAD@ + subpath_rules(own_directories(home) + extras) + PROFILE_TAIL@
}

fn push_rule(text: &mut String, path: &str)
    ensures
        final(text)@ == old(text)@ + subpath_rule(path@),
{
    text.append("    (subpath \"");
    text.append(path);
    text.append("\")\n");
    assert(text@ =~= old(text)@ + subpath_rule(path@));
}

fn push_rules(text: &mut String, paths: &Vec<String>)
    ensures
        final(text)@ == old(text)@ + subpath_rules(views(paths@)),
{
    let ghost start = text@;
    let ghost all = views(paths@);
    let mut i: usize = 0;
    proof {
        assert(all.take(0) =~= Seq::empty());
        assert(text@ =~= start + subpath_rules(all.take(0)));
    }
    while i < paths.len()
        invariant
            i <= paths.len(),
            all == views(paths@),
            text@ == start + subpath_rules(all.take(i as int)),
        decreases paths.len() - i,
    {
        push_rule(text, paths[i].as_str());
        i = i + 1;
        proof {
            assert(all.take(i as int).drop_last() =~= all.take(i - 1));
            assert(text@ =~= start + subpath_rules(all.take(i as int)));
        }
    }
    assert(all.take(i as int) =~= all);
}

/// Writes the profile for an agent with the given home and extra directories.
pub fn build_profile(home: &str, extras: &Vec<String>) -> (text: String)
    ensures
        text@ == profile(home@, views(extras@)),
{
    let mut own: Vec<String> = Vec::new();
    own.push(concat(home, "/.goose"));
    own.push(concat(home, "/.local/share/goose"));
    own.push(concat(home, "/.config/goose"));
    own.push(concat(home, "/.local/state/goose"));
    own.push(concat(home, "/.cache/uv"));
    own.push(concat(home, "/.cache"));
    assert(views(own@) =~= own_directories(home@));
    let mut text = PROFILE_HEAD.to_owned();
    push_rules(&mut text, &own);
    push_rules(&mut text, extras);
    text.append(PROFILE_TAIL);
    proof {
        lemma_rules_concat(own_directories(home@), views(extras@));
        assert(text@ =~= profile(home@, views(extras@)));
    }
    text
}

proof fn lemma_rules_concat(first: Seq<Seq<char>>, second: Seq<Seq<char>>)
    ensures
        subpath_rules(first + second) == subpath_rules(first) + subpath_rules(second),
    decreases second.len(),
{
    if second.len() == 0 {
        assert(first + second =~= first);
        assert(subpath_rules(first) + subpath_rules(second) =~= subpath_rules(first));
    } else {
        lemma_rules_concat(first, second.drop_last());
        assert((first + second).drop_last() =~= first + second.drop_last());
        assert(subpath_rules(first) + subpath_rules(second.drop_last()) + subpath_rule(
            second.last(),
        ) =~= subpath_rules(first) + subpath_rules(second));
    }
}

/// Every directory that was asked for has its rule in the profile, after what denies writing
/// everywhere.
pub proof fn every_directory_has_its_rule(home: Seq<char>, extras: Seq<Seq<char>>, i: int)
    requires
        0 <= i < extras.len(),
    ensures
        exists|before: Seq<char>, after: Seq<char>|
            profile(home, extras) == #[trigger] (PROFILE_HEAD@ + before + subpath_rule(extras[i])
                + after),
{
    let all = own_directories(home) + extras;
    let n = own_directories(home).len() + i;
    let first = all.take(n as int);
    let rest = all.skip(n + 1);
    assert(all =~= first.push(extras[i]) + rest);
    lemma_rules_concat(first.push(extras[i]), rest);
    assert(first.push(extras[i]).drop_last() =~= first);
    let before = subpath_rules(first);
    let after = subpath_rules(rest) + PROFILE_TAIL@;
    assert(profile(home, extras) =~= PROFILE_HEAD@ + before + subpath_rule(extras[i]) + after);
}

/// A profile begins with what denies writing and ends with what closes the rules. Between them
/// stands one rule for each of the agent's own directories under its home, and none else where
/// no other directory was asked for.
pub proof fn profiles_hold_the_agents_directories(home: Seq<char>)
    ensures
        profile(home, Seq::empty()) == PROFILE_HEAD@ + ("    (subpath \""@ + (home + "/.goose"@)
            + "\")\n"@) + ("    (subpath \""@ + (home + "/.local/share/goose"@) + "\")\n"@) + (
        "    (subpath \""@ + (home + "/.config/goose"@) + "\")\n"@) + ("    (subpath \""@ + (home
            + "/.local/state/goose"@) + "\")\n"@) + ("    (subpath \""@ + (home + "/.cache/uv"@)
            + "\")\n"@) + ("    (subpath \""@ + (home + "/.cache"@) + "\")\n"@) + PROFILE_TAIL@,
{
    let own = own_directories(home);
    assert(own + Seq::<Seq<char>>::empty() =~= own);
    reveal_with_fuel(subpath_rules, 7);
    assert(own.drop_last().drop_last().drop_last().drop_last().drop_last().drop_last()
        =~= Seq::empty());
    let rules = subpath_rule(own[0]) + subpath_rule(own[1]) + subpath_rule(own[2]) + subpath_rule(
        own[3],
    ) + subpath_rule(own[4]) + subpath_rule(own[5]);
    assert(subpath_rules(own) =~= rules);
    assert(profile(home, Seq::empty()) =~= PROFILE_HEAD@ + subpath_rule(own[0]) + subpath_rule(
        own[1],
    ) + subpath_rule(own[2]) + subpath_rule(own[3]) + subpath_rule(own[4]) + subpath_rule(own[5])
        + PROFILE_TAIL@);
}

/// One more directory adds its own rule behind all others, and nothing else: two profiles that
/// differ by it are the same up to there and from there on.
pub proof fn each_directory_adds_its_rule(home: Seq<char>, extras: Seq<Seq<char>>, path: Seq<char>)
    ensures
        exists|rules: Seq<char>|
            {
                &&& #[trigger] (rules + PROFILE_TAIL@) == profile(home, extras)
                &&& rules + ("    (subpath \""@ + path + "\")\n"@) + PROFILE_TAIL@ == profile(
                    home,
                    extras.push(path),
                )
            },
{
    let own = own_directories(home);
    let rules = PROFILE_HEAD@ + subpath_rules(own + extras);
    assert((own + extras.push(path)).drop_last() =~= own + extras);
    assert(rules + PROFILE_TAIL@ =~= profile(home, extras));
    assert(rules + subpath_rule(path) + PROFILE_TAIL@ =~= profile(home, extras.push(path)));
}

} // verus!
