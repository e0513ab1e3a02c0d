//! The command shelf: saved commands and the edits the tool applies to
//! them. Reading and writing the shelf file is the caller's business; these
//! operations work on the decoded list and say exactly what they change.

use vstd::prelude::*;

use crate::template::{extract_parameters, has_template};

verus! {

/// One saved command.
pub struct SavedCommand {
    /// A numeric handle, unique in a well-kept shelf.
    pub id: u32,
    /// The command line itself.
    pub command: String,
    /// A free-form description.
    pub description: String,
    /// Optional tags; an empty tag list is stored as `None`.
    pub tags: Option<Vec<String>>,
    /// Whether the command holds `{{name}}` placeholders.
    pub is_template: bool,
}

/// Everything the shelf file holds.
pub struct ShelfData {
    /// The saved commands, oldest first.
    pub commands: Vec<SavedCommand>,
}

/// The description a command gets when none is given.
pub fn default_description() -> (s: String)
    ensures
        s@ == "No description."@,
{
    String::from_str("No description.")
}

/// The largest id among the saved commands; zero when there are none.
pub open spec fn max_id(s: Seq<SavedCommand>) -> int
    decreases s.len(),
{
    if s.len() == 0 {
        0
    } else {
        let m = max_id(s.drop_last());
        if s.last().id > m {
            s.last().id as int
        } else {
            m
        }
    }
}

/// Some saved command carries this id.
pub open spec fn has_id(s: Seq<SavedCommand>, id: u32) -> bool {
    exists|t: int| 0 <= t < s.len() && (#[trigger] s[t]).id == id
}

/// `t` is the first position whose command carries `id`.
pub open spec fn first_with_id(s: Seq<SavedCommand>, t: int, id: u32) -> bool {
    &&& 0 <= t < s.len()
    &&& s[t].id == id
    &&& forall|u: int| 0 <= u < t ==> (#[trigger] s[u]).id != id
}

/// The commands whose id is not `id`, in order.
pub open spec fn without_id(s: Seq<SavedCommand>, id: u32) -> Seq<SavedCommand>
    decreases s.len(),
{
    if s.len() == 0 {
        Seq::empty()
    } else {
        let rest = without_id(s.drop_last(), id);
        if s.last().id == id {
            rest
        } else {
            rest.push(s.last())
        }
    }
}

/// Some tag in `ts` has exactly the characters `w`.
pub open spec fn str_in(ts: Seq<String>, w: Seq<char>) -> bool {
    exists|u: int| 0 <= u < ts.len() && (#[trigger] ts[u])@ == w
}

/// The tags that do not spell `w`, in order.
pub open spec fn without_str(ts: Seq<String>, w: Seq<char>) -> Seq<String>
    decreases ts.len(),
{
    if ts.len() == 0 {
        Seq::empty()
    } else {
        let rest = without_str(ts.drop_last(), w);
        if ts.last()@ == w {
            rest
        } else {
            rest.push(ts.last())
        }
    }
}

/// The tag list as an optional sequence, for contracts.
pub open spec fn tags_view(tags: Option<Vec<String>>) -> Option<Seq<String>> {
    match tags {
        None => None,
        Some(v) => Some(v@),
    }
}

/// `post` equals `pre` except that the command at `t` may have new tags;
/// its other fields are kept.
pub open spec fn updated_tags_at(pre: Seq<SavedCommand>, post: Seq<SavedCommand>, t: int) -> bool {
    &&& post.len() == pre.len()
    &&& forall|u: int| 0 <= u < pre.len() && u != t ==> post[u] == #[trigger] pre[u]
    &&& post[t].id == pre[t].id
    &&& post[t].command == pre[t].command
    &&& post[t].description == pre[t].description
    &&& post[t].is_template == pre[t].is_template
}

/// The id the next saved command gets: one past the largest in use.
pub fn get_next_id(commands: &Vec<SavedCommand>) -> (r: u32)
    requires
        max_id(commands@) < u32::MAX,
    ensures
        r as int == max_id(commands@) + 1,
{
    let n = commands.len();
    let mut best: u32 = 0;
    let mut i: usize = 0;
    while i < n
        invariant
            i <= n == commands@.len(),
            max_id(commands@) < u32::MAX,
            best as int == max_id(commands@.take(i as int)),
        decreases n - i,
    {
        proof {
            assert(commands@.take(i + 1).drop_last() =~= commands@.take(i as int));
            assert(commands@.take(i + 1).last() == commands@[i as int]);
            lemma_max_id_take_bound(commands@, i + 1);
        }
        if commands[i].id > best {
            best = commands[i].id;
        }
        i += 1;
    }
    proof {
        assert(commands@.take(n as int) =~= commands@);
    }
    best + 1
}

/// A prefix never has a larger maximal id than the whole list.
proof fn lemma_max_id_take_bound(s: Seq<SavedCommand>, i: int)
    requires
        0 <= i <= s.len(),
    ensures
        max_id(s.take(i)) <= max_id(s),
    decreases s.len(),
{
    if s.len() > 0 {
        if i == s.len() {
            assert(s.take(i) =~= s);
        } else {
            assert(s.drop_last().take(i) =~= s.take(i));
            lemma_max_id_take_bound(s.drop_last(), i);
        }
    } else {
        assert(s.take(i) =~= s);
    }
}

/// The first position holding `id`, if any command does.
pub fn index_of_id(commands: &Vec<SavedCommand>, id: u32) -> (r: Option<usize>)
    ensures
        match r {
            Some(t) => first_with_id(commands@, t as int, id),
            None => !has_id(commands@, id),
        },
{
    let n = commands.len();
    let mut i: usize = 0;
    while i < n
        invariant
            i <= n == commands@.len(),
            forall|u: int| 0 <= u < i ==> (#[trigger] commands@[u]).id != id,
        decreases n - i,
    {
        if commands[i].id == id {
            return Some(i);
        }
        i += 1;
    }
    None
}

/// Marks as templates the saved commands that hold a placeholder: older
/// shelf files predate the flag and are brought up to date after decoding.
pub fn mark_templates(commands: &mut Vec<SavedCommand>)
    ensures
        final(commands)@.len() == old(commands)@.len(),
        forall|t: int|
            0 <= t < old(commands)@.len() ==> {
                let pre = #[trigger] old(commands)@[t];
                let post = final(commands)@[t];
                post.id == pre.id && post.command == pre.command && post.description
                    == pre.description && post.tags == pre.tags && post.is_template == (
                pre.is_template || has_template(pre.command@))
            },
{
    let n = commands.len();
    let mut i: usize = 0;
    while i < n
        invariant
            i <= n == commands@.len(),
            n == old(commands)@.len(),
            forall|t: int| i <= t < n ==> commands@[t] == #[trigger] old(commands)@[t],
            forall|t: int|
                0 <= t < i ==> {
                    let pre = #[trigger] old(commands)@[t];
                    let post = commands@[t];
                    post.id == pre.id && post.command == pre.command && post.description
                        == pre.description && post.tags == pre.tags && post.is_template == (
                    pre.is_template || has_template(pre.command@))
                },
        decreases n - i,
    {
        let ghost before = commands@;
        let c = commands.remove(i);
        let params = extract_parameters(c.command.as_str());
        let flagged = c.is_template || params.len() > 0;
        let updated = SavedCommand { is_template: flagged, ..c };
        commands.insert(i, updated);
        proof {
            assert(commands@ =~= before.update(i as int, updated));
        }
        i += 1;
    }
}

/// Appends a newly saved command: it gets the next id, the given or the
/// default description, the given tags, and the template flag that its
/// placeholders dictate. Returns that flag.
pub fn save_command(
    commands: &mut Vec<SavedCommand>,
    command: String,
    description: Option<String>,
    tags: Option<Vec<String>>,
) -> (is_template: bool)
    requires
        max_id(old(commands)@) < u32::MAX,
    ensures
        is_template == has_template(command@),
        final(commands)@ == old(commands)@.push(final(commands)@.last()),
        final(commands)@.last().id as int == max_id(old(commands)@) + 1,
        final(commands)@.last().command == command,
        match description {
            Some(d) => final(commands)@.last().description == d,
            None => final(commands)@.last().description@ == "No description."@,
        },
        final(commands)@.last().tags == tags,
        final(commands)@.last().is_template == has_template(command@),
{
    let id = get_next_id(commands);
    let params = extract_parameters(command.as_str());
    let is_template = params.len() > 0;
    let description = match description {
        Some(d) => d,
        None => default_description(),
    };
    commands.push(SavedCommand { id, command, description, tags, is_template });
    is_template
}

/// Drops every command with the given id. Returns whether any was there;
/// the caller reports the id as unknown when none was.
pub fn delete_command(commands: &mut Vec<SavedCommand>, id: u32) -> (removed: bool)
    ensures
        removed == has_id(old(commands)@, id),
        final(commands)@ == without_id(old(commands)@, id),
{
    let ghost orig = commands@;
    let n = commands.len();
    let mut out: Vec<SavedCommand> = Vec::new();
    let mut found = false;
    let mut i: usize = 0;
    while i < n
        invariant
            i <= n == orig.len(),
            commands@ == orig.skip(i as int),
            out@ == without_id(orig.take(i as int), id),
            found == has_id(orig.take(i as int), id),
        decreases n - i,
    {
        let c = commands.remove(0);
        proof {
            assert(c == orig[i as int]);
            assert(commands@ =~= orig.skip(i + 1));
            assert(orig.take(i + 1).drop_last() =~= orig.take(i as int));
            assert(orig.take(i + 1).last() == orig[i as int]);
            if has_id(orig.take(i as int), id) || c.id == id {
                assert(has_id(orig.take(i + 1), id)) by {
                    if c.id == id {
                        assert(orig.take(i + 1)[i as int].id == id);
                    } else {
                        let w = choose|w: int|
                            0 <= w < i && (#[trigger] orig.take(i as int)[w]).id == id;
                        assert(orig.take(i + 1)[w].id == id);
                    }
                }
            } else {
                assert(!has_id(orig.take(i + 1), id)) by {
                    if has_id(orig.take(i + 1), id) {
                        let w = choose|w: int|
                            0 <= w < i + 1 && (#[trigger] orig.take(i + 1)[w]).id == id;
                        if w < i {
                            assert(orig.take(i as int)[w].id == id);
                        }
                    }
                }
            }
        }
        if c.id == id {
            found = true;
        } else {
            out.push(c);
        }
        i += 1;
    }
    proof {
        assert(orig.take(n as int) =~= orig);
    }
    *commands = out;
    found
}

/// What a tag edit came to.
#[derive(Clone, Copy, Debug, PartialEq, Eq)]
pub enum TagOutcome {
    /// The edit was applied.
    Applied,
    /// No command carries the given id.
    NotFound,
    /// The command has no tags to remove from.
    NoTags,
    /// The tag to remove is not on the command.
    TagMissing,
    /// The tag to add is already on the command.
    TagExists,
}

/// Removes a tag from the command with the given id; a tag list that
/// empties is dropped altogether. Nothing changes unless `Applied`.
pub fn remove_tag(commands: &mut Vec<SavedCommand>, id: u32, tag: &String) -> (r: TagOutcome)
    ensures
        !has_id(old(commands)@, id) ==> r == TagOutcome::NotFound && final(commands)@ == old(
            commands,
        )@,
        forall|t: int|
            first_with_id(old(commands)@, t, id) ==> match old(commands)@[t].tags {
                None => r == TagOutcome::NoTags && final(commands)@ == old(commands)@,
                Some(ts) => {
                    if !str_in(ts@, tag@) {
                        r == TagOutcome::TagMissing && final(commands)@ == old(commands)@
                    } else {
                        r == TagOutcome::Applied && updated_tags_at(
                            old(commands)@,
                            final(commands)@,
                            t,
                        ) && tags_view(final(commands)@[t].tags) == (
                        if without_str(ts@, tag@).len() == 0 {
                            None::<Seq<String>>
                        } else {
                            Some(without_str(ts@, tag@))
                        })
                    }
                },
            },
{
    let found = index_of_id(commands, id);
    let t = match found {
        Some(t) => t,
        None => {
            return TagOutcome::NotFound;
        },
    };
    proof {
        lemma_first_with_id_unique(commands@, t as int, id);
    }
    let ghost before = commands@;
    let c = commands.remove(t);
    let SavedCommand { id: cid, command, description, tags, is_template } = c;
    match tags {
        None => {
            commands.insert(
                t,
                SavedCommand { id: cid, command, description, tags: None, is_template },
            );
            proof {
                assert(commands@ =~= before);
            }
            TagOutcome::NoTags
        },
        Some(ts) => {
            let mut kept: Vec<String> = Vec::new();
            let mut matched = false;
            let m = ts.len();
            let mut u: usize = 0;
            while u < m
                invariant
                    u <= m == ts@.len(),
                    kept@ == without_str(ts@.take(u as int), tag@),
                    matched == str_in(ts@.take(u as int), tag@),
                decreases m - u,
            {
                proof {
                    assert(ts@.take(u + 1).drop_last() =~= ts@.take(u as int));
                    assert(ts@.take(u + 1).last() == ts@[u as int]);
                    if str_in(ts@.take(u as int), tag@) {
                        let w = choose|w: int|
                            0 <= w < u && (#[trigger] ts@.take(u as int)[w])@ == tag@;
                        assert(ts@.take(u + 1)[w]@ == tag@);
                    }
                    if !str_in(ts@.take(u as int), tag@) && ts@[u as int]@ != tag@ {
                        if str_in(ts@.take(u + 1), tag@) {
                            let w = choose|w: int|
                                0 <= w < u + 1 && (#[trigger] ts@.take(u + 1)[w])@ == tag@;
                            if w < u {
                                assert(ts@.take(u as int)[w]@ == tag@);
                            }
                        }
                    }
                }
                if ts[u] == *tag {
                    matched = true;
                } else {
                    kept.push(ts[u].clone());
                }
                u += 1;
            }
            proof {
                assert(ts@.take(m as int) =~= ts@);
            }
            if !matched {
                commands.insert(
                    t,
                    SavedCommand { id: cid, command, description, tags: Some(ts), is_template },
                );
                proof {
                    assert(commands@ =~= before);
                }
                TagOutcome::TagMissing
            } else {
                let new_tags = if kept.len() == 0 {
                    None
                } else {
                    Some(kept)
                };
                let updated = SavedCommand {
                    id: cid,
                    command,
                    description,
                    tags: new_tags,
                    is_template,
                };
                commands.insert(t, updated);
                proof {
                    assert(commands@ =~= before.update(t as int, updated));
                }
                TagOutcome::Applied
            }
        },
    }
}

/// Only one position can be the first with a given id.
proof fn lemma_first_with_id_unique(s: Seq<SavedCommand>, t0: int, id: u32)
    requires
        first_with_id(s, t0, id),
    ensures
        forall|t: int| first_with_id(s, t, id) ==> t == t0,
{
    assert forall|t: int| first_with_id(s, t, id) implies t == t0 by {
        if t < t0 {
            assert(s[t].id != id);
        } else if t0 < t {
            assert(s[t0].id != id);
        }
    }
}

/// Adds a tag to the command with the given id, unless it already carries
/// it. Nothing changes unless `Applied`.
pub fn add_tag(commands: &mut Vec<SavedCommand>, id: u32, tag: String) -> (r: TagOutcome)
    ensures
        !has_id(old(commands)@, id) ==> r == TagOutcome::NotFound && final(commands)@ == old(
            commands,
        )@,
        forall|t: int|
            first_with_id(old(commands)@, t, id) ==> match old(commands)@[t].tags {
                None => r == TagOutcome::Applied && updated_tags_at(
                    old(commands)@,
                    final(commands)@,
                    t,
                ) && tags_view(final(commands)@[t].tags) == Some(seq![tag]),
                Some(ts) => {
                    if str_in(ts@, tag@) {
                        r == TagOutcome::TagExists && final(commands)@ == old(commands)@
                    } else {
                        r == TagOutcome::Applied && updated_tags_at(
                            old(commands)@,
                            final(commands)@,
                            t,
                        ) && tags_view(final(commands)@[t].tags) == Some(ts@.push(tag))
                    }
                },
            },
{
    let found = index_of_id(commands, id);
    let t = match found {
        Some(t) => t,
        None => {
            return TagOutcome::NotFound;
        },
    };
    proof {
        lemma_first_with_id_unique(commands@, t as int, id);
    }
    let ghost before = commands@;
    let c = commands.remove(t);
    let SavedCommand { id: cid, command, description, tags, is_template } = c;
    match tags {
        None => {
            let mut ts: Vec<String> = Vec::new();
            ts.push(tag);
            proof {
                assert(ts@ =~= seq![tag]);
            }
            let updated = SavedCommand {
                id: cid,
                command,
                description,
                tags: Some(ts),
                is_template,
            };
            commands.insert(t, updated);
            proof {
                assert(commands@ =~= before.update(t as int, updated));
            }
            TagOutcome::Applied
        },
        Some(ts) => {
            if contains_tag(&ts, &tag) {
                commands.insert(
                    t,
                    SavedCommand { id: cid, command, description, tags: Some(ts), is_template },
                );
                proof {
                    assert(commands@ =~= before);
                }
                TagOutcome::TagExists
            } else {
                let mut ts = ts;
                ts.push(tag);
                let updated = SavedCommand {
                    id: cid,
                    command,
                    description,
                    tags: Some(ts),
                    is_template,
                };
                commands.insert(t, updated);
                proof {
                    assert(commands@ =~= before.update(t as int, updated));
                }
                TagOutcome::Applied
            }
        },
    }
}

/// Whether some tag of `v` spells the same as `w`.
fn contains_tag(v: &Vec<String>, w: &String) -> (r: bool)
    ensures
        r == str_in(v@, w@),
{
    let mut i: usize = 0;
    while i < v.len()
        invariant
            i <= v@.len(),
            forall|u: int| 0 <= u < i ==> (#[trigger] v@[u])@ != w@,
        decreases v@.len() - i,
    {
        if v[i] == *w {
            proof {
                assert(v@[i as int]@ == w@);
            }
            return true;
        }
        i += 1;
    }
    false
}

/// Replaces the description of the command with the given id. Returns
/// whether the id was found; nothing changes otherwise.
pub fn edit_description(
    commands: &mut Vec<SavedCommand>,
    id: u32,
    new_description: String,
) -> (found: bool)
    ensures
        found == has_id(old(commands)@, id),
        !found ==> *final(commands) == *old(commands),
        forall|t: int|
            first_with_id(old(commands)@, t, id) ==> final(commands)@ == old(commands)@.update(
                t,
                SavedCommand { description: new_description, ..old(commands)@[t] },
            ),
{
    let found = index_of_id(commands, id);
    match found {
        None => false,
        Some(t) => {
            let ghost before = commands@;
            let c = commands.remove(t);
            let updated = SavedCommand { description: new_description, ..c };
            commands.insert(t, updated);
            proof {
                assert(commands@ =~= before.update(t as int, updated));
            }
            true
        },
    }
}

/// Replaces the command line of the command with the given id. Returns
/// whether the id was found; nothing changes otherwise.
pub fn edit_command_string(
    commands: &mut Vec<SavedCommand>,
    id: u32,
    new_command: String,
) -> (found: bool)
    ensures
        found == has_id(old(commands)@, id),
        !found ==> *final(commands) == *old(commands),
        forall|t: int|
            first_with_id(old(commands)@, t, id) ==> final(commands)@ == old(commands)@.update(
                t,
                SavedCommand { command: new_command, ..old(commands)@[t] },
            ),
{
    let found = index_of_id(commands, id);
    match found {
        None => false,
        Some(t) => {
            let ghost before = commands@;
            let c = commands.remove(t);
            let updated = SavedCommand { command: new_command, ..c };
            commands.insert(t, updated);
            proof {
                assert(commands@ =~= before.update(t as int, updated));
            }
            true
        },
    }
}

/// The commands in listing order: newest first when `reverse`, and at most
/// `limit` of them when a limit is given.
pub fn list_commands(
    commands: Vec<SavedCommand>,
    reverse: bool,
    limit: Option<u32>,
) -> (out: Vec<SavedCommand>)
    ensures
        ({
            let base = if reverse {
                commands@.reverse()
            } else {
                commands@
            };
            out@ == match limit {
                Some(l) => (if l < base.len() {
                    base.take(l as int)
                } else {
                    base
                }),
                None => base,
            }
        }),
{
    let mut base = commands;
    if reverse {
        let ghost orig = base@;
        let n = base.len();
        let mut rev: Vec<SavedCommand> = Vec::new();
        let mut i: usize = 0;
        while i < n
            invariant
                i <= n,
                n == orig.len(),
                base@ == orig.take((n - i) as int),
                rev@.len() == i,
                forall|x: int| 0 <= x < i ==> rev@[x] == orig[n - 1 - x],
            decreases n - i,
        {
            let c = base.pop().unwrap();
            proof {
                assert(orig.take((n - i) as int).last() == orig[n - i - 1]);
                assert(orig.take((n - i) as int).drop_last() =~= orig.take((n - i - 1) as int));
            }
            rev.push(c);
            i += 1;
        }
        proof {
            assert(rev@ =~= orig.reverse());
        }
        base = rev;
    }
    match limit {
        Some(l) => {
            let ghost pre = base@;
            let l_usize = l as usize;
            base.truncate(l_usize);
            proof {
                if (l as int) < pre.len() {
                    assert(base@ == pre.take(l as int));
                } else {
                    if l_usize <= pre.len() {
                        assert(base@ =~= pre);
                    }
                }
            }
        },
        None => {},
    }
    base
}

} // verus!
