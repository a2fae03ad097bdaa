//! The order in which sessions are listed. Sessions stand in groups: the group of a session is what
//! its name has before the first slash.

use vstd::prelude::*;
use crate::text::{
    chars_of, find_char, find_char_is, lines, lines_of, position_from, same_text, text_of, texts,
};
use crate::text_set::TextSet;

verus! {

/// A group of sessions.
#[derive(Debug)]
pub struct SessionGroup {
    pub name: String,
    pub sessions: Vec<String>,
}

/// The groups, in the order in which they are listed.
#[derive(Debug)]
pub struct SessionStore {
    pub entries: Vec<SessionGroup>,
}

/// A group, as its texts.
pub struct GroupView {
    pub name: Seq<char>,
    pub sessions: Seq<Seq<char>>,
}

impl View for SessionGroup {
    type V = GroupView;

    open spec fn view(&self) -> GroupView {
        GroupView { name: self.name@, sessions: texts(self.sessions@) }
    }
}

/// The groups, as their texts.
pub open spec fn group_views(entries: Seq<SessionGroup>) -> Seq<GroupView> {
    entries.map_values(|g: SessionGroup| g@)
}

impl View for SessionStore {
    type V = Seq<GroupView>;

    open spec fn view(&self) -> Seq<GroupView> {
        group_views(self.entries@)
    }
}

/// The group of a session: what its name has before the first slash, and nothing where it has none.
pub open spec fn group_of(name: Seq<char>) -> Seq<char> {
    let i = find_char(name, '/');
    if i < name.len() {
        name.take(i)
    } else {
        Seq::empty()
    }
}

/// The group of a session.
pub fn session_group(name: &str) -> (out: String)
    ensures
        out@ == group_of(name@),
{
    let chars = chars_of(name);
    let i = position_from(&chars, '/', 0);
    assert(chars@.skip(0) =~= name@);
    if i < chars.len() {
        assert(chars@.subrange(0, i as int) =~= name@.take(i as int));
        text_of(&chars, 0, i)
    } else {
        let out = String::new();
        assert(out@ =~= Seq::<char>::empty());
        out
    }
}

/// All sessions, in their order.
pub open spec fn names_of(groups: Seq<GroupView>) -> Seq<Seq<char>>
    decreases groups.len(),
{
    if groups.len() == 0 {
        Seq::empty()
    } else {
        names_of(groups.drop_last()) + groups.last().sessions
    }
}

/// Whether a session is listed.
pub open spec fn lists(groups: Seq<GroupView>, name: Seq<char>) -> bool {
    exists|i: int| 0 <= i < groups.len() && (#[trigger] groups[i]).sessions.contains(name)
}

/// Position of the first group with a name, or the length where there is none.
pub open spec fn group_at(groups: Seq<GroupView>, name: Seq<char>) -> int
    decreases groups.len(),
{
    if groups.len() == 0 {
        0
    } else if groups[0].name == name {
        0
    } else {
        1 + group_at(groups.drop_first(), name)
    }
}

/// Position of the first group that holds only a session with the given name, or the length.
pub open spec fn lone_at(groups: Seq<GroupView>, name: Seq<char>) -> int
    decreases groups.len(),
{
    if groups.len() == 0 {
        0
    } else if groups[0].sessions == seq![name] {
        0
    } else {
        1 + lone_at(groups.drop_first(), name)
    }
}

/// The groups with one more session: in its group, or in a group that so far holds only the session
/// that the group is named after, or in a new group at the end. A session that is listed stays where
/// it is.
pub open spec fn with_session(groups: Seq<GroupView>, name: Seq<char>) -> Seq<GroupView> {
    let group = group_of(name);
    let at = group_at(groups, group);
    let lone = lone_at(groups, group);
    if lists(groups, name) {
        groups
    } else if at < groups.len() {
        groups.update(
            at,
            GroupView { name: groups[at].name, sessions: groups[at].sessions.push(name) },
        )
    } else if lone < groups.len() {
        groups.update(
            lone,
            GroupView { name: group, sessions: groups[lone].sessions.push(name) },
        )
    } else {
        groups.push(GroupView { name: group, sessions: seq![name] })
    }
}

/// The groups with one more session, merged by group: each group once, each session once in it.
pub open spec fn merged_session(groups: Seq<GroupView>, name: Seq<char>) -> Seq<GroupView> {
    let at = group_at(groups, group_of(name));
    if at < groups.len() {
        if groups[at].sessions.contains(name) {
            groups
        } else {
            groups.update(
                at,
                GroupView { name: groups[at].name, sessions: groups[at].sessions.push(name) },
            )
        }
    } else {
        groups.push(GroupView { name: group_of(name), sessions: seq![name] })
    }
}

/// The groups that a list of sessions makes, after those that are there.
pub open spec fn merged(groups: Seq<GroupView>, names: Seq<Seq<char>>) -> Seq<GroupView>
    decreases names.len(),
{
    if names.len() == 0 {
        groups
    } else {
        merged_session(merged(groups, names.drop_last()), names.last())
    }
}

/// The groups with a list of sessions added, one after the other.
pub open spec fn with_sessions(groups: Seq<GroupView>, names: Seq<Seq<char>>) -> Seq<GroupView>
    decreases names.len(),
{
    if names.len() == 0 {
        groups
    } else {
        with_session(with_sessions(groups, names.drop_last()), names.last())
    }
}

/// A group without the sessions that are gone.
pub open spec fn pruned_group(group: GroupView, alive: Set<Seq<char>>) -> GroupView {
    GroupView { sessions: group.sessions.filter(|s: Seq<char>| alive.contains(s)), ..group }
}

/// The groups without the sessions that are gone, and without the groups that are empty then.
pub open spec fn pruned(groups: Seq<GroupView>, alive: Set<Seq<char>>) -> Seq<GroupView>
    decreases groups.len(),
{
    if groups.len() == 0 {
        Seq::empty()
    } else {
        let before = pruned(groups.drop_last(), alive);
        let last = pruned_group(groups.last(), alive);
        if last.sessions.len() > 0 {
            before.push(last)
        } else {
            before
        }
    }
}

proof fn group_at_is(groups: Seq<GroupView>, name: Seq<char>, i: int)
    requires
        0 <= i <= groups.len(),
        i < groups.len() ==> groups[i].name == name,
        forall|j: int| 0 <= j < i ==> (#[trigger] groups[j]).name != name,
    ensures
        group_at(groups, name) == i,
    decreases groups.len(),
{
    if i > 0 {
        let rest = groups.drop_first();
        assert(groups[0].name != name);
        assert forall|j: int| 0 <= j < i - 1 implies (#[trigger] rest[j]).name != name by {
            assert(rest[j] == groups[j + 1]);
        }
        group_at_is(rest, name, i - 1);
    }
}

proof fn group_at_bounds(groups: Seq<GroupView>, name: Seq<char>)
    ensures
        0 <= group_at(groups, name) <= groups.len(),
        group_at(groups, name) < groups.len() ==> groups[group_at(groups, name)].name == name,
        forall|j: int| 0 <= j < group_at(groups, name) ==> (#[trigger] groups[j]).name != name,
    decreases groups.len(),
{
    if groups.len() > 0 && groups[0].name != name {
        let rest = groups.drop_first();
        group_at_bounds(rest, name);
        assert forall|j: int| 0 <= j < group_at(groups, name) implies (#[trigger] groups[j]).name
            != name by {
            if j > 0 {
                assert(groups[j] == rest[j - 1]);
            }
        }
    }
}

proof fn lone_at_is(groups: Seq<GroupView>, name: Seq<char>, i: int)
    requires
        0 <= i <= groups.len(),
        i < groups.len() ==> groups[i].sessions == seq![name],
        forall|j: int| 0 <= j < i ==> (#[trigger] groups[j]).sessions != seq![name],
    ensures
        lone_at(groups, name) == i,
    decreases groups.len(),
{
    if i > 0 {
        let rest = groups.drop_first();
        assert(groups[0].sessions != seq![name]);
        assert forall|j: int| 0 <= j < i - 1 implies (#[trigger] rest[j]).sessions != seq![name] by {
            assert(rest[j] == groups[j + 1]);
        }
        lone_at_is(rest, name, i - 1);
    }
}

fn has_text(list: &Vec<String>, name: &str) -> (out: bool)
    ensures
        out == texts(list@).contains(name@),
{
    let mut i: usize = 0;
    while i < list.len()
        invariant
            i <= list@.len(),
            forall|j: int| 0 <= j < i ==> texts(list@)[j] != name@,
        decreases list@.len() - i,
    {
        assert(texts(list@)[i as int] == list@[i as int]@);
        if same_text(&list[i], name) {
            assert(texts(list@).contains(name@));
            return true;
        }
        i = i + 1;
    }
    assert(texts(list@).len() == list@.len());
    false
}

impl SessionStore {
    /// A store without groups.
    pub fn new() -> (out: Self)
        ensures
            out@ == Seq::<GroupView>::empty(),
    {
        let out = SessionStore { entries: Vec::new() };
        assert(out@ =~= Seq::<GroupView>::empty());
        out
    }

    /// Whether a session is listed.
    pub fn contains(&self, name: &str) -> (out: bool)
        ensures
            out == lists(self@, name@),
    {
        let mut i: usize = 0;
        while i < self.entries.len()
            invariant
                i <= self.entries@.len(),
                forall|j: int| 0 <= j < i ==> !(#[trigger] self@[j]).sessions.contains(name@),
            decreases self.entries@.len() - i,
        {
            assert(self@[i as int] == self.entries@[i as int]@);
            if has_text(&self.entries[i].sessions, name) {
                return true;
            }
            i = i + 1;
        }
        assert(self@.len() == self.entries@.len());
        false
    }

    fn find_group(&self, name: &str) -> (out: Option<usize>)
        ensures
            match out {
                Some(i) => i < self.entries@.len() && i == group_at(self@, name@),
                None => group_at(self@, name@) == self@.len(),
            },
    {
        let mut i: usize = 0;
        while i < self.entries.len()
            invariant
                i <= self.entries@.len(),
                forall|j: int| 0 <= j < i ==> (#[trigger] self@[j]).name != name@,
            decreases self.entries@.len() - i,
        {
            assert(self@[i as int] == self.entries@[i as int]@);
            if same_text(&self.entries[i].name, name) {
                proof {
                    group_at_is(self@, name@, i as int);
                }
                return Some(i);
            }
            i = i + 1;
        }
        proof {
            assert(self@.len() == self.entries@.len());
            group_at_is(self@, name@, i as int);
        }
        None
    }

    fn find_lone(&self, name: &str) -> (out: Option<usize>)
        ensures
            match out {
                Some(i) => i < self.entries@.len() && i == lone_at(self@, name@),
                None => lone_at(self@, name@) == self@.len(),
            },
    {
        let mut i: usize = 0;
        while i < self.entries.len()
            invariant
                i <= self.entries@.len(),
                forall|j: int| 0 <= j < i ==> (#[trigger] self@[j]).sessions != seq![name@],
            decreases self.entries@.len() - i,
        {
            let sessions = &self.entries[i].sessions;
            assert(self@[i as int] == self.entries@[i as int]@);
            assert(texts(sessions@).len() == sessions@.len());
            if sessions.len() == 1 {
                assert(texts(sessions@)[0] == sessions@[0]@);
                if same_text(&sessions[0], name) {
                    proof {
                        assert(texts(sessions@) =~= seq![name@]);
                        lone_at_is(self@, name@, i as int);
                    }
                    return Some(i);
                }
                assert(texts(sessions@) != seq![name@]) by {
                    assert(seq![name@][0] == name@);
                }
            }
            i = i + 1;
        }
        proof {
            assert(self@.len() == self.entries@.len());
            lone_at_is(self@, name@, i as int);
        }
        None
    }

    /// Appends a session to a group, and gives the group a name.
    fn append_to(&mut self, at: usize, group: Option<&str>, name: &str)
        requires
            at < old(self).entries@.len(),
        ensures
            final(self)@ == old(self)@.update(
                at as int,
                GroupView {
                    name: match group {
                        Some(g) => g@,
                        None => old(self)@[at as int].name,
                    },
                    sessions: old(self)@[at as int].sessions.push(name@),
                },
            ),
    {
        let ghost before = self@;
        let SessionGroup { name: old_name, mut sessions } = self.entries.remove(at);
        let ghost listed = sessions@;
        sessions.push(name.to_owned());
        assert(texts(sessions@) =~= texts(listed).push(name@));
        let new_name = match group {
            Some(g) => g.to_owned(),
            None => old_name,
        };
        self.entries.insert(at, SessionGroup { name: new_name, sessions });
        assert(self@ =~= before.update(
            at as int,
            GroupView { name: new_name@, sessions: before[at as int].sessions.push(name@) },
        ));
    }

    /// Adds a session.
    pub fn insert(&mut self, name: &str)
        ensures
            final(self)@ == with_session(old(self)@, name@),
    {
        if self.contains(name) {
            return;
        }
        let group = session_group(name);
        match self.find_group(&group) {
            Some(at) => {
                self.append_to(at, None, name);
            },
            None => match self.find_lone(&group) {
                Some(at) => {
                    self.append_to(at, Some(&group), name);
                },
                None => {
                    let ghost before = self@;
                    let sessions = vec![name.to_owned()];
                    assert(texts(sessions@) =~= seq![name@]);
                    self.entries.push(SessionGroup { name: group, sessions });
                    assert(self@ =~= before.push(
                        GroupView { name: group@, sessions: seq![name@] },
                    ));
                },
            },
        }
    }

    /// The groups that a plain list of sessions makes. A session that is listed twice counts once.
    pub fn from_flat_list(names: &[String]) -> (out: Self)
        ensures
            out@ == with_sessions(Seq::empty(), texts(names@)),
    {
        let mut store = SessionStore::new();
        let mut i: usize = 0;
        assert(texts(names@).take(0) =~= Seq::<Seq<char>>::empty());
        while i < names.len()
            invariant
                i <= names@.len(),
                store@ == with_sessions(Seq::empty(), texts(names@).take(i as int)),
            decreases names@.len() - i,
        {
            store.insert(&names[i]);
            proof {
                assert(texts(names@).take(i + 1).drop_last() =~= texts(names@).take(i as int));
                assert(texts(names@).take(i + 1).last() == names@[i as int]@);
            }
            i = i + 1;
        }
        assert(texts(names@).take(i as int) =~= texts(names@));
        store
    }

    /// All sessions, in their order.
    pub fn ordered_names(&self) -> (out: Vec<String>)
        ensures
            texts(out@) == names_of(self@),
    {
        let mut out: Vec<String> = Vec::new();
        let mut i: usize = 0;
        assert(self@.take(0) =~= Seq::<GroupView>::empty());
        assert(texts(out@) =~= Seq::<Seq<char>>::empty());
        while i < self.entries.len()
            invariant
                i <= self.entries@.len(),
                texts(out@) == names_of(self@.take(i as int)),
            decreases self.entries@.len() - i,
        {
            let sessions = &self.entries[i].sessions;
            let ghost before = texts(out@);
            assert(before + texts(sessions@).take(0) =~= before);
            let mut j: usize = 0;
            while j < sessions.len()
                invariant
                    j <= sessions@.len(),
                    texts(out@) == before + texts(sessions@).take(j as int),
                decreases sessions@.len() - j,
            {
                let ghost listed = out@;
                out.push(sessions[j].clone());
                proof {
                    assert(texts(out@) =~= texts(listed).push(sessions@[j as int]@));
                    assert(texts(sessions@).take(j + 1) =~= texts(sessions@).take(j as int).push(
                        texts(sessions@)[j as int],
                    ));
                    assert(texts(out@) =~= before + texts(sessions@).take(j + 1));
                }
                j = j + 1;
            }
            proof {
                assert(texts(sessions@).take(j as int) =~= texts(sessions@));
                assert(self@.take(i + 1).drop_last() =~= self@.take(i as int));
                assert(self@.take(i + 1).last() == self.entries@[i as int]@);
            }
            i = i + 1;
        }
        assert(self@.take(i as int) =~= self@);
        out
    }

    fn merge(&mut self, name: &str)
        ensures
            final(self)@ == merged_session(old(self)@, name@),
    {
        let group = session_group(name);
        match self.find_group(&group) {
            Some(at) => {
                assert(self@[at as int] == self.entries@[at as int]@);
                if !has_text(&self.entries[at].sessions, name) {
                    self.append_to(at, None, name);
                }
            },
            None => {
                let ghost before = self@;
                let sessions = vec![name.to_owned()];
                assert(texts(sessions@) =~= seq![name@]);
                self.entries.push(SessionGroup { name: group, sessions });
                assert(self@ =~= before.push(GroupView { name: group@, sessions: seq![name@] }));
            },
        }
    }

    /// Sorts every session into its group, and merges groups of the same name.
    pub fn normalize_groups(&mut self)
        ensures
            final(self)@ == merged(Seq::empty(), names_of(old(self)@)),
    {
        let names = self.ordered_names();
        let mut result = SessionStore::new();
        let mut i: usize = 0;
        assert(texts(names@).take(0) =~= Seq::<Seq<char>>::empty());
        while i < names.len()
            invariant
                i <= names@.len(),
                result@ == merged(Seq::empty(), texts(names@).take(i as int)),
            decreases names@.len() - i,
        {
            result.merge(&names[i]);
            proof {
                assert(texts(names@).take(i + 1).drop_last() =~= texts(names@).take(i as int));
                assert(texts(names@).take(i + 1).last() == names@[i as int]@);
            }
            i = i + 1;
        }
        assert(texts(names@).take(i as int) =~= texts(names@));
        self.entries = result.entries;
    }

    /// Drops the sessions that are gone, and the groups that are empty then.
    pub fn prune(&mut self, alive: &TextSet)
        requires
            alive.wf(),
        ensures
            final(self)@ == pruned(old(self)@, alive.set()),
    {
        let ghost all = self@;
        let mut kept: Vec<SessionGroup> = Vec::new();
        let mut i: usize = 0;
        assert(all.take(0) =~= Seq::<GroupView>::empty());
        assert(group_views(kept@) =~= Seq::<GroupView>::empty());
        while i < self.entries.len()
            invariant
                i <= self.entries@.len(),
                alive.wf(),
                self@ == all,
                group_views(kept@) == pruned(all.take(i as int), alive.set()),
            decreases self.entries@.len() - i,
        {
            let ghost before = kept@;
            assert(all[i as int] == self.entries@[i as int]@);
            let sessions = keep_alive(&self.entries[i].sessions, alive);
            let ghost shown = pruned_group(all[i as int], alive.set());
            proof {
                assert(all.take(i + 1).drop_last() =~= all.take(i as int));
                assert(all.take(i + 1).last() == all[i as int]);
                assert(texts(sessions@).len() == sessions@.len());
            }
            if sessions.len() > 0 {
                kept.push(SessionGroup { name: self.entries[i].name.clone(), sessions });
                assert(group_views(kept@) =~= group_views(before).push(shown));
            }
            i = i + 1;
        }
        assert(all.take(i as int) =~= all);
        self.entries = kept;
    }
}

fn keep_alive(sessions: &Vec<String>, alive: &TextSet) -> (out: Vec<String>)
    requires
        alive.wf(),
    ensures
        texts(out@) == texts(sessions@).filter(|s: Seq<char>| alive.set().contains(s)),
{
    let ghost all = texts(sessions@);
    let ghost keep = |s: Seq<char>| alive.set().contains(s);
    let mut out: Vec<String> = Vec::new();
    let mut i: usize = 0;
    proof {
        reveal(Seq::filter);
        assert(all.take(0).filter(keep) =~= Seq::<Seq<char>>::empty());
        assert(texts(out@) =~= Seq::<Seq<char>>::empty());
    }
    while i < sessions.len()
        invariant
            i <= sessions@.len(),
            alive.wf(),
            all == texts(sessions@),
            keep == (|s: Seq<char>| alive.set().contains(s)),
            texts(out@) == all.take(i as int).filter(keep),
        decreases sessions@.len() - i,
    {
        let ghost before = out@;
        proof {
            reveal(Seq::filter);
            assert(all[i as int] == sessions@[i as int]@);
            assert(all.take(i + 1).drop_last() =~= all.take(i as int));
            assert(all.take(i + 1).last() == all[i as int]);
        }
        if alive.contains(&sessions[i]) {
            out.push(sessions[i].clone());
            assert(texts(out@) =~= texts(before).push(all[i as int]));
        }
        i = i + 1;
    }
    assert(all.take(i as int) =~= all);
    out
}

/// Position of a session in a list, or the length where it is not there.
pub open spec fn name_at(names: Seq<Seq<char>>, name: Seq<char>) -> int
    decreases names.len(),
{
    if names.len() == 0 {
        0
    } else if names[0] == name {
        0
    } else {
        1 + name_at(names.drop_first(), name)
    }
}

/// Position of the first group that lists a session, or the length where none does.
pub open spec fn holder_at(groups: Seq<GroupView>, name: Seq<char>) -> int
    decreases groups.len(),
{
    if groups.len() == 0 {
        0
    } else if groups[0].sessions.contains(name) {
        0
    } else {
        1 + holder_at(groups.drop_first(), name)
    }
}

/// Whether a group is stepped over as a whole by a session without a group.
pub open spec fn stepped_over(name: Seq<char>, group: GroupView) -> bool {
    group_of(name).len() == 0 && group.name.len() > 0 && group.sessions.len() > 1
}

/// Two groups, or two sessions, change places.
pub open spec fn swapped<A>(list: Seq<A>, i: int, j: int) -> Seq<A> {
    list.update(i, list[j]).update(j, list[i])
}

/// The groups after a session was moved up or down, or nothing where it cannot move. A session moves
/// within its group first. At the edge of its group the group moves instead. A session without a
/// group steps over a group of several sessions in one go, and not at all where nothing is behind it.
pub open spec fn moved(groups: Seq<GroupView>, name: Seq<char>, delta: int) -> Option<Seq<GroupView>> {
    let at = holder_at(groups, name);
    let up = delta < 0;
    if delta == 0 || at >= groups.len() {
        None
    } else {
        let sessions = groups[at].sessions;
        let i = name_at(sessions, name);
        let to = if up {
            i - 1
        } else {
            i + 1
        };
        let beside = if up {
            at - 1
        } else {
            at + 1
        };
        let beyond = if up {
            at - 2
        } else {
            at + 2
        };
        if 0 <= to < sessions.len() {
            Some(groups.update(at, GroupView { sessions: swapped(sessions, i, to), ..groups[at] }))
        } else if !(0 <= beside < groups.len()) {
            None
        } else if !stepped_over(name, groups[beside]) {
            Some(swapped(groups, at, beside))
        } else if 0 <= beyond < groups.len() {
            Some(swapped(groups, at, beyond))
        } else {
            None
        }
    }
}

pub proof fn name_at_is(names: Seq<Seq<char>>, name: Seq<char>, i: int)
    requires
        0 <= i < names.len(),
        names[i] == name,
        forall|j: int| 0 <= j < i ==> #[trigger] names[j] != name,
    ensures
        name_at(names, name) == i,
    decreases names.len(),
{
    if i > 0 {
        let rest = names.drop_first();
        assert(names[0] != name);
        assert forall|j: int| 0 <= j < i - 1 implies #[trigger] rest[j] != name by {
            assert(rest[j] == names[j + 1]);
        }
        name_at_is(rest, name, i - 1);
    }
}

proof fn name_at_bounds(names: Seq<Seq<char>>, name: Seq<char>)
    requires
        names.contains(name),
    ensures
        0 <= name_at(names, name) < names.len(),
    decreases names.len(),
{
    if names[0] != name {
        let i = choose|i: int| 0 <= i < names.len() && names[i] == name;
        assert(names.drop_first()[i - 1] == name);
        name_at_bounds(names.drop_first(), name);
    }
}

proof fn holder_at_is(groups: Seq<GroupView>, name: Seq<char>, i: int)
    requires
        0 <= i <= groups.len(),
        i < groups.len() ==> groups[i].sessions.contains(name),
        forall|j: int| 0 <= j < i ==> !(#[trigger] groups[j]).sessions.contains(name),
    ensures
        holder_at(groups, name) == i,
    decreases groups.len(),
{
    if i > 0 {
        let rest = groups.drop_first();
        assert(!groups[0].sessions.contains(name));
        assert forall|j: int| 0 <= j < i - 1 implies !(#[trigger] rest[j]).sessions.contains(
            name,
        ) by {
            assert(rest[j] == groups[j + 1]);
        }
        holder_at_is(rest, name, i - 1);
    }
}

proof fn holder_at_bounds(groups: Seq<GroupView>, name: Seq<char>)
    ensures
        0 <= holder_at(groups, name) <= groups.len(),
        holder_at(groups, name) < groups.len() ==> groups[holder_at(
            groups,
            name,
        )].sessions.contains(name),
    decreases groups.len(),
{
    if groups.len() > 0 && !groups[0].sessions.contains(name) {
        holder_at_bounds(groups.drop_first(), name);
    }
}

fn position_of(list: &Vec<String>, name: &str) -> (out: Option<usize>)
    ensures
        match out {
            Some(i) => i < list@.len() && i == name_at(texts(list@), name@) && texts(
                list@,
            ).contains(name@),
            None => !texts(list@).contains(name@),
        },
{
    let mut i: usize = 0;
    while i < list.len()
        invariant
            i <= list@.len(),
            forall|j: int| 0 <= j < i ==> #[trigger] texts(list@)[j] != name@,
        decreases list@.len() - i,
    {
        assert(texts(list@)[i as int] == list@[i as int]@);
        if same_text(&list[i], name) {
            proof {
                name_at_is(texts(list@), name@, i as int);
            }
            return Some(i);
        }
        i = i + 1;
    }
    assert(texts(list@).len() == list@.len());
    None
}

/// Two texts of a list change places.
fn swap_texts(list: &mut Vec<String>, i: usize, j: usize)
    requires
        i < old(list)@.len(),
        j < old(list)@.len(),
    ensures
        texts(final(list)@) == swapped(texts(old(list)@), i as int, j as int),
{
    let ghost before = texts(list@);
    let first = list[i].clone();
    let second = list[j].clone();
    list.set(i, second);
    list.set(j, first);
    assert(texts(list@) =~= swapped(before, i as int, j as int));
}

impl SessionStore {
    /// Where a session stands: its group, and its place in the group.
    pub fn find_session(&self, name: &str) -> (out: Option<(usize, usize)>)
        ensures
            match out {
                Some((at, i)) => at < self@.len() && at == holder_at(self@, name@) && i
                    < self@[at as int].sessions.len() && i == name_at(
                    self@[at as int].sessions,
                    name@,
                ),
                None => holder_at(self@, name@) == self@.len(),
            },
    {
        let mut at: usize = 0;
        while at < self.entries.len()
            invariant
                at <= self.entries@.len(),
                forall|j: int| 0 <= j < at ==> !(#[trigger] self@[j]).sessions.contains(name@),
            decreases self.entries@.len() - at,
        {
            assert(self@[at as int] == self.entries@[at as int]@);
            match position_of(&self.entries[at].sessions, name) {
                Some(i) => {
                    proof {
                        holder_at_is(self@, name@, at as int);
                    }
                    return Some((at, i));
                },
                None => {},
            }
            at = at + 1;
        }
        proof {
            assert(self@.len() == self.entries@.len());
            holder_at_is(self@, name@, at as int);
        }
        None
    }

    /// Two groups change places.
    fn swap_groups(&mut self, i: usize, j: usize)
        requires
            i < j < old(self)@.len(),
        ensures
            final(self)@ == swapped(old(self)@, i as int, j as int),
            final(self)@ == swapped(old(self)@, j as int, i as int),
    {
        let ghost before = self@;
        let second = self.entries.remove(j);
        let first = self.entries.remove(i);
        self.entries.insert(i, second);
        self.entries.insert(j, first);
        assert(self@ =~= swapped(before, i as int, j as int));
        assert(self@ =~= swapped(before, j as int, i as int));
    }

    fn swap_sessions(&mut self, at: usize, i: usize, j: usize)
        requires
            at < old(self)@.len(),
            i < old(self)@[at as int].sessions.len(),
            j < old(self)@[at as int].sessions.len(),
        ensures
            final(self)@ == old(self)@.update(
                at as int,
                GroupView {
                    sessions: swapped(old(self)@[at as int].sessions, i as int, j as int),
                    ..old(self)@[at as int]
                },
            ),
    {
        let ghost before = self@;
        let SessionGroup { name, mut sessions } = self.entries.remove(at);
        assert(before[at as int] == (GroupView { name: name@, sessions: texts(sessions@) }));
        swap_texts(&mut sessions, i, j);
        self.entries.insert(at, SessionGroup { name, sessions });
        assert(self@ =~= before.update(
            at as int,
            GroupView {
                sessions: swapped(before[at as int].sessions, i as int, j as int),
                ..before[at as int]
            },
        ));
    }

    fn steps_over(&self, name: &str, at: usize) -> (out: bool)
        requires
            at < self@.len(),
        ensures
            out == stepped_over(name@, self@[at as int]),
    {
        let group = session_group(name);
        let entry = &self.entries[at];
        assert(self@[at as int] == entry@);
        let own = chars_of(&group);
        let other = chars_of(&entry.name);
        own.len() == 0 && other.len() > 0 && entry.sessions.len() > 1
    }

    /// Moves a session up or down, and says whether it moved.
    pub fn move_session(&mut self, name: &str, delta: i32) -> (out: bool)
        ensures
            out == (moved(old(self)@, name@, delta as int) is Some),
            match moved(old(self)@, name@, delta as int) {
                Some(groups) => final(self)@ == groups,
                None => *final(self) == *old(self),
            },
    {
        if delta == 0 {
            return false;
        }
        let up = delta < 0;
        match self.find_session(name) {
            None => false,
            Some((at, i)) => {
                let count = self.entries.len();
                assert(self@.len() == count);
                assert(self@[at as int] == self.entries@[at as int]@);
                let inside = self.entries[at].sessions.len();
                if up && i > 0 {
                    self.swap_sessions(at, i, i - 1);
                    true
                } else if !up && i < inside - 1 {
                    self.swap_sessions(at, i, i + 1);
                    true
                } else if up && at > 0 {
                    if !self.steps_over(name, at - 1) {
                        self.swap_groups(at - 1, at);
                        true
                    } else if at > 1 {
                        self.swap_groups(at - 2, at);
                        true
                    } else {
                        false
                    }
                } else if !up && at < count - 1 {
                    if !self.steps_over(name, at + 1) {
                        self.swap_groups(at, at + 1);
                        true
                    } else if at + 1 < count - 1 {
                        self.swap_groups(at, at + 2);
                        true
                    } else {
                        false
                    }
                } else {
                    false
                }
            },
        }
    }
}

/// The groups once the sessions that are alive are listed, and no others.
pub open spec fn refreshed(groups: Seq<GroupView>, alive: Seq<Seq<char>>) -> Seq<GroupView> {
    pruned(with_sessions(groups, alive), alive.to_set())
}

/// The lines of a list that hold something.
pub open spec fn listed_lines(text: Seq<char>) -> Seq<Seq<char>> {
    lines_of(text).filter(|line: Seq<char>| line.len() > 0)
}

/// The lines of a list that hold something.
pub fn load_lines(text: &str) -> (out: Vec<String>)
    ensures
        texts(out@) == listed_lines(text@),
{
    let list = lines(text);
    let ghost all = texts(list@);
    let ghost keep = |line: Seq<char>| line.len() > 0;
    let mut out: Vec<String> = Vec::new();
    let mut i: usize = 0;
    proof {
        reveal(Seq::filter);
        assert(all.take(0).filter(keep) =~= Seq::<Seq<char>>::empty());
        assert(texts(out@) =~= Seq::<Seq<char>>::empty());
    }
    while i < list.len()
        invariant
            i <= list@.len(),
            all == texts(list@),
            keep == (|line: Seq<char>| line.len() > 0),
            texts(out@) == all.take(i as int).filter(keep),
        decreases list@.len() - i,
    {
        let ghost before = out@;
        proof {
            reveal(Seq::filter);
            assert(all[i as int] == list@[i as int]@);
            assert(all.take(i + 1).drop_last() =~= all.take(i as int));
            assert(all.take(i + 1).last() == all[i as int]);
        }
        if list[i].as_str().unicode_len() > 0 {
            out.push(list[i].clone());
            assert(texts(out@) =~= texts(before).push(all[i as int]));
        }
        i = i + 1;
    }
    assert(all.take(i as int) =~= all);
    out
}

/// The groups to start with, and whether they are to be saved: those that were saved, or else those
/// that a plain list makes, or else none.
pub fn load(saved: Option<SessionStore>, flat: Option<&str>) -> (out: (SessionStore, bool))
    ensures
        match (saved, flat) {
            (Some(store), _) => out.0@ == merged(Seq::empty(), names_of(store@)) && !out.1,
            (None, Some(text)) => out.0@ == with_sessions(Seq::empty(), listed_lines(text@))
                && out.1,
            (None, None) => out.0@ == Seq::<GroupView>::empty() && !out.1,
        },
{
    if let Some(mut store) = saved {
        store.normalize_groups();
        return (store, false);
    }
    match flat {
        Some(text) => {
            let names = load_lines(text);
            (SessionStore::from_flat_list(names.as_slice()), true)
        },
        None => (SessionStore::new(), false),
    }
}

/// Brings the groups up to date with the sessions that are alive, and lists the sessions that are
/// not hidden in their order. New sessions come in the order of their names.
pub fn compute_order(store: &mut SessionStore, alive: &TextSet, hidden: &[String]) -> (out: Vec<String>)
    requires
        alive.wf(),
    ensures
        final(store)@ == refreshed(old(store)@, texts(alive.items@)),
        texts(out@) == names_of(final(store)@).filter(
            |s: Seq<char>| alive.set().contains(s) && !texts(hidden@).contains(s),
        ),
{
    let ghost names = texts(alive.items@);
    let ghost before = store@;
    let mut i: usize = 0;
    assert(names.take(0) =~= Seq::<Seq<char>>::empty());
    while i < alive.items.len()
        invariant
            i <= alive.items@.len(),
            names == texts(alive.items@),
            store@ == with_sessions(before, names.take(i as int)),
        decreases alive.items@.len() - i,
    {
        store.insert(&alive.items[i]);
        proof {
            assert(names.take(i + 1).drop_last() =~= names.take(i as int));
            assert(names.take(i + 1).last() == alive.items@[i as int]@);
        }
        i = i + 1;
    }
    assert(names.take(i as int) =~= names);
    store.prune(alive);

    let listed = store.ordered_names();
    let ghost all = texts(listed@);
    let ghost keep = |s: Seq<char>| alive.set().contains(s) && !texts(hidden@).contains(s);
    let mut out: Vec<String> = Vec::new();
    let mut i: usize = 0;
    proof {
        reveal(Seq::filter);
        assert(all.take(0).filter(keep) =~= Seq::<Seq<char>>::empty());
        assert(texts(out@) =~= Seq::<Seq<char>>::empty());
    }
    while i < listed.len()
        invariant
            i <= listed@.len(),
            alive.wf(),
            all == texts(listed@),
            keep == (|s: Seq<char>| alive.set().contains(s) && !texts(hidden@).contains(s)),
            texts(out@) == all.take(i as int).filter(keep),
        decreases listed@.len() - i,
    {
        let ghost before = out@;
        proof {
            reveal(Seq::filter);
            assert(all[i as int] == listed@[i as int]@);
            assert(all.take(i + 1).drop_last() =~= all.take(i as int));
            assert(all.take(i + 1).last() == all[i as int]);
        }
        if alive.contains(&listed[i]) && !is_hidden(hidden, &listed[i]) {
            out.push(listed[i].clone());
            assert(texts(out@) =~= texts(before).push(all[i as int]));
        }
        i = i + 1;
    }
    assert(all.take(i as int) =~= all);
    out
}

fn is_hidden(hidden: &[String], name: &str) -> (out: bool)
    ensures
        out == texts(hidden@).contains(name@),
{
    let mut i: usize = 0;
    while i < hidden.len()
        invariant
            i <= hidden@.len(),
            forall|j: int| 0 <= j < i ==> texts(hidden@)[j] != name@,
        decreases hidden@.len() - i,
    {
        assert(texts(hidden@)[i as int] == hidden@[i as int]@);
        if same_text(&hidden[i], name) {
            assert(texts(hidden@).contains(name@));
            return true;
        }
        i = i + 1;
    }
    assert(texts(hidden@).len() == hidden@.len());
    false
}

/// Moves a session up or down, and says whether the groups changed and are to be written back.
pub fn move_session(store: &mut SessionStore, name: &str, delta: i32) -> (out: bool)
    ensures
        out == (moved(old(store)@, name@, delta as int) is Some),
        match moved(old(store)@, name@, delta as int) {
            Some(groups) => final(store)@ == groups,
            None => *final(store) == *old(store),
        },
{
    store.move_session(name, delta)
}

/// Groups in which every session stands in its group, once, and each group once.
pub open spec fn tidy(groups: Seq<GroupView>) -> bool {
    &&& forall|i: int, j: int|
        0 <= i < j < groups.len() ==> (#[trigger] groups[i]).name != (#[trigger] groups[j]).name
    &&& forall|i: int, k: int|
        0 <= i < groups.len() && 0 <= k < groups[i].sessions.len() ==> group_of(
            #[trigger] groups[i].sessions[k],
        ) == groups[i].name
    &&& forall|i: int| 0 <= i < groups.len() ==> (#[trigger] groups[i]).sessions.no_duplicates()
}

proof fn merged_session_is_tidy(groups: Seq<GroupView>, name: Seq<char>)
    requires
        tidy(groups),
    ensures
        tidy(merged_session(groups, name)),
        forall|n: Seq<char>|
            lists(merged_session(groups, name), n) <==> lists(groups, n) || n == name,
{
    let out = merged_session(groups, name);
    let group = group_of(name);
    let at = group_at(groups, group);
    group_at_bounds(groups, group);
    if at < groups.len() {
        let sessions = groups[at].sessions;
        if sessions.contains(name) {
            assert(lists(groups, name));
        } else {
            let more = sessions.push(name);
            assert(out[at].sessions == more);
            assert forall|i: int, k: int|
                0 <= i < out.len() && 0 <= k < out[i].sessions.len() implies group_of(
                #[trigger] out[i].sessions[k],
            ) == out[i].name by {
                if i != at || k < sessions.len() {
                    assert(out[i].sessions[k] == groups[i].sessions[k]);
                }
            }
            assert forall|i: int| 0 <= i < out.len() implies (
            #[trigger] out[i]).sessions.no_duplicates() by {
                assert(groups[i].sessions.no_duplicates());
            }
            assert forall|n: Seq<char>| lists(out, n) <==> lists(groups, n) || n == name by {
                if lists(groups, n) {
                    let i = choose|i: int|
                        0 <= i < groups.len() && (#[trigger] groups[i]).sessions.contains(n);
                    let k = choose|k: int| 0 <= k < groups[i].sessions.len() && groups[i].sessions[k] == n;
                    assert(out[i].sessions[k] == n);
                }
                if n == name {
                    assert(out[at].sessions[sessions.len() as int] == n);
                }
                if lists(out, n) {
                    let i = choose|i: int|
                        0 <= i < out.len() && (#[trigger] out[i]).sessions.contains(n);
                    let k = choose|k: int| 0 <= k < out[i].sessions.len() && out[i].sessions[k] == n;
                    if n != name {
                        assert(groups[i].sessions[k] == n);
                    }
                }
            }
        }
    } else {
        let last = out[groups.len() as int];
        assert forall|i: int, k: int|
            0 <= i < out.len() && 0 <= k < out[i].sessions.len() implies group_of(
            #[trigger] out[i].sessions[k],
        ) == out[i].name by {
            if i < groups.len() {
                assert(out[i] == groups[i]);
                assert(out[i].sessions[k] == groups[i].sessions[k]);
            }
        }
        assert forall|n: Seq<char>| lists(out, n) <==> lists(groups, n) || n == name by {
            if lists(groups, n) {
                let i = choose|i: int|
                    0 <= i < groups.len() && (#[trigger] groups[i]).sessions.contains(n);
                assert(out[i] == groups[i]);
            }
            if n == name {
                assert(last.sessions[0] == n);
                assert(last.sessions.contains(n));
            }
            if lists(out, n) && n != name {
                let i = choose|i: int|
                    0 <= i < out.len() && (#[trigger] out[i]).sessions.contains(n);
                assert(i < groups.len());
                assert(out[i] == groups[i]);
            }
        }
    }
}

proof fn names_are_listed(groups: Seq<GroupView>)
    ensures
        forall|n: Seq<char>| names_of(groups).contains(n) <==> lists(groups, n),
    decreases groups.len(),
{
    if groups.len() > 0 {
        let before = groups.drop_last();
        let last = groups.last();
        names_are_listed(before);
        assert forall|n: Seq<char>| names_of(groups).contains(n) <==> lists(groups, n) by {
            if names_of(groups).contains(n) {
                let k = choose|k: int| 0 <= k < names_of(groups).len() && names_of(groups)[k] == n;
                if k < names_of(before).len() {
                    assert(names_of(before)[k] == n);
                    assert(lists(before, n));
                    let i = choose|i: int|
                        0 <= i < before.len() && (#[trigger] before[i]).sessions.contains(n);
                    assert(groups[i] == before[i]);
                } else {
                    assert(last.sessions[k - names_of(before).len()] == n);
                    assert(groups[groups.len() - 1].sessions.contains(n));
                }
            }
            if lists(groups, n) {
                let i = choose|i: int|
                    0 <= i < groups.len() && (#[trigger] groups[i]).sessions.contains(n);
                if i < before.len() {
                    assert(before[i] == groups[i]);
                    assert(lists(before, n));
                    let k = choose|k: int| 0 <= k < names_of(before).len() && names_of(before)[k] == n;
                    assert(names_of(groups)[k] == n);
                } else {
                    let k = choose|k: int| 0 <= k < last.sessions.len() && last.sessions[k] == n;
                    assert(names_of(groups)[names_of(before).len() + k] == n);
                }
            }
        }
    } else {
        assert forall|n: Seq<char>| names_of(groups).contains(n) <==> lists(groups, n) by {}
    }
}

proof fn merged_is_tidy(names: Seq<Seq<char>>)
    ensures
        tidy(merged(Seq::empty(), names)),
        forall|n: Seq<char>| lists(merged(Seq::empty(), names), n) <==> names.contains(n),
    decreases names.len(),
{
    if names.len() > 0 {
        let before = names.drop_last();
        merged_is_tidy(before);
        merged_session_is_tidy(merged(Seq::empty(), before), names.last());
        assert forall|n: Seq<char>| lists(
            merged(Seq::empty(), names),
            n,
        ) <==> names.contains(n) by {
            if names.contains(n) && n != names.last() {
                let k = choose|k: int| 0 <= k < names.len() && names[k] == n;
                assert(before[k] == n);
            }
            if before.contains(n) {
                let k = choose|k: int| 0 <= k < before.len() && before[k] == n;
                assert(names[k] == n);
            }
        }
    }
}

/// Sorting sessions into their groups loses none and adds none, and leaves every session in its
/// group, once.
pub proof fn normal_groups_are_tidy(groups: Seq<GroupView>)
    ensures
        tidy(merged(Seq::empty(), names_of(groups))),
        forall|n: Seq<char>|
            lists(merged(Seq::empty(), names_of(groups)), n) <==> lists(groups, n),
{
    merged_is_tidy(names_of(groups));
    names_are_listed(groups);
}

/// A list with each entry where it comes first, and nowhere else.
pub open spec fn firsts(list: Seq<Seq<char>>) -> Seq<Seq<char>>
    decreases list.len(),
{
    if list.len() == 0 {
        Seq::empty()
    } else {
        let before = firsts(list.drop_last());
        if before.contains(list.last()) {
            before
        } else {
            before.push(list.last())
        }
    }
}

/// The groups of sessions, one for each session.
pub open spec fn groups_of(names: Seq<Seq<char>>) -> Seq<Seq<char>> {
    names.map_values(|n: Seq<char>| group_of(n))
}

/// The names of groups.
pub open spec fn titles(groups: Seq<GroupView>) -> Seq<Seq<char>> {
    groups.map_values(|g: GroupView| g.name)
}

/// Whether a session stands in a group.
pub open spec fn of_group(group: Seq<char>) -> spec_fn(Seq<char>) -> bool {
    |n: Seq<char>| group_of(n) == group
}

/// Groups that are as a list of sessions has them: the groups in the order in which the list comes to
/// them, and in each its sessions in the order in which the list comes to them. None is empty.
pub open spec fn follow(groups: Seq<GroupView>, names: Seq<Seq<char>>) -> bool {
    &&& titles(groups) == firsts(groups_of(names))
    &&& forall|i: int|
        0 <= i < groups.len() ==> (#[trigger] groups[i]).sessions == firsts(
            names.filter(of_group(groups[i].name)),
        )
    &&& forall|i: int| 0 <= i < groups.len() ==> (#[trigger] groups[i]).sessions.len() > 0
}

proof fn nothing_of_new_group(names: Seq<Seq<char>>, group: Seq<char>)
    requires
        !firsts(groups_of(names)).contains(group),
    ensures
        names.filter(of_group(group)) == Seq::<Seq<char>>::empty(),
    decreases names.len(),
{
    reveal(Seq::filter);
    if names.len() > 0 {
        let before = names.drop_last();
        let earlier = firsts(groups_of(before));
        assert(groups_of(names).drop_last() =~= groups_of(before));
        assert(groups_of(names).last() == group_of(names.last()));
        let last = group_of(names.last());
        if earlier.contains(group) {
            let k = choose|k: int| 0 <= k < earlier.len() && earlier[k] == group;
            assert(firsts(groups_of(names))[k] == group);
        }
        if last == group {
            assert(earlier.push(last)[earlier.len() as int] == group);
        }
        nothing_of_new_group(before, group);
    } else {
        assert(names.filter(of_group(group)) =~= Seq::<Seq<char>>::empty());
    }
}

proof fn merged_session_follows(groups: Seq<GroupView>, names: Seq<Seq<char>>, name: Seq<char>)
    requires
        tidy(groups),
        follow(groups, names),
    ensures
        follow(merged_session(groups, name), names.push(name)),
{
    let all = names.push(name);
    let group = group_of(name);
    let at = group_at(groups, group);
    let after = merged_session(groups, name);
    group_at_bounds(groups, group);
    assert(all.drop_last() =~= names);
    assert(groups_of(all).drop_last() =~= groups_of(names));
    assert(groups_of(all).last() == group);
    assert forall|g: Seq<char>| #[trigger] all.filter(of_group(g)) == (if g == group {
        names.filter(of_group(g)).push(name)
    } else {
        names.filter(of_group(g))
    }) by {
        reveal(Seq::filter);
    }
    let kept = names.filter(of_group(group));
    assert(kept.push(name).drop_last() =~= kept);
    if at < groups.len() {
        assert(titles(groups)[at] == group);
        assert(titles(groups).contains(group));
        assert(titles(after) =~= titles(groups));
        assert forall|i: int| 0 <= i < after.len() implies (#[trigger] after[i]).sessions == firsts(
            all.filter(of_group(after[i].name)),
        ) && after[i].sessions.len() > 0 by {
            assert(groups[i].sessions == firsts(names.filter(of_group(groups[i].name))));
            assert(groups[i].sessions.len() > 0);
            if i == at {
                assert(firsts(kept.push(name)) == (if firsts(kept).contains(name) {
                    firsts(kept)
                } else {
                    firsts(kept).push(name)
                }));
            } else {
                assert(groups[i].name != group) by {
                    if i < at {
                        assert(groups[i].name != groups[at].name);
                    } else {
                        assert(groups[at].name != groups[i].name);
                    }
                }
            }
        }
    } else {
        assert(!titles(groups).contains(group)) by {
            if titles(groups).contains(group) {
                let k = choose|k: int| 0 <= k < titles(groups).len() && titles(groups)[k] == group;
                assert(groups[k].name == group);
            }
        }
        nothing_of_new_group(names, group);
        assert(titles(after) =~= titles(groups).push(group));
        assert forall|i: int| 0 <= i < after.len() implies (#[trigger] after[i]).sessions == firsts(
            all.filter(of_group(after[i].name)),
        ) && after[i].sessions.len() > 0 by {
            if i < groups.len() {
                assert(after[i] == groups[i]);
                assert(groups[i].sessions == firsts(names.filter(of_group(groups[i].name))));
                assert(groups[i].sessions.len() > 0);
                assert(groups[i].name != group);
            } else {
                assert(firsts(kept) =~= Seq::<Seq<char>>::empty());
                assert(firsts(kept.push(name)) =~= seq![name]);
            }
        }
    }
}

proof fn merged_follows(names: Seq<Seq<char>>)
    ensures
        follow(merged(Seq::empty(), names), names),
    decreases names.len(),
{
    if names.len() > 0 {
        let before = names.drop_last();
        merged_follows(before);
        merged_is_tidy(before);
        merged_session_follows(merged(Seq::empty(), before), before, names.last());
        assert(before.push(names.last()) =~= names);
    } else {
        assert(titles(merged(Seq::empty(), names)) =~= firsts(groups_of(names)));
    }
}

/// Sorting sessions into their groups keeps the order in which groups and sessions come first, and
/// leaves no group empty.
pub proof fn normal_groups_follow(groups: Seq<GroupView>)
    ensures
        follow(merged(Seq::empty(), names_of(groups)), names_of(groups)),
{
    merged_follows(names_of(groups));
}

proof fn merging_in_two_parts(groups: Seq<GroupView>, a: Seq<Seq<char>>, b: Seq<Seq<char>>)
    ensures
        merged(groups, a + b) == merged(merged(groups, a), b),
    decreases b.len(),
{
    if b.len() > 0 {
        assert((a + b).drop_last() =~= a + b.drop_last());
        merging_in_two_parts(groups, a, b.drop_last());
    } else {
        assert(a + b =~= a);
    }
}

proof fn merging_a_group(before: Seq<GroupView>, group: GroupView, n: int)
    requires
        tidy(before.push(group)),
        0 < n <= group.sessions.len(),
    ensures
        merged(before, group.sessions.take(n)) == before.push(
            GroupView { name: group.name, sessions: group.sessions.take(n) },
        ),
    decreases n,
{
    let all = before.push(group);
    let at = before.len() as int;
    let some = group.sessions.take(n);
    let last = group.sessions[n - 1];
    assert(all[at].sessions[n - 1] == last);
    assert(group_of(last) == group.name);
    assert(some.drop_last() =~= group.sessions.take(n - 1));
    assert(some.last() == last);
    assert forall|j: int| 0 <= j < at implies (#[trigger] before[j]).name != group.name by {
        assert(all[j].name != all[at].name);
    }
    if n == 1 {
        assert(group.sessions.take(0) =~= Seq::<Seq<char>>::empty());
        group_at_is(before, group.name, at);
        assert(some =~= seq![last]);
        assert(merged(before, some.drop_last()) == before);
        assert(merged(before, some) == merged_session(before, last));
    } else {
        merging_a_group(before, group, n - 1);
        let earlier = before.push(
            GroupView { name: group.name, sessions: group.sessions.take(n - 1) },
        );
        assert forall|j: int| 0 <= j < at implies (#[trigger] earlier[j]).name != group.name by {
            assert(earlier[j] == before[j]);
        }
        group_at_is(earlier, group.name, at);
        assert(all[at].sessions.no_duplicates());
        let fewer = group.sessions.take(n - 1);
        assert(!fewer.contains(last)) by {
            if fewer.contains(last) {
                let k = choose|k: int| 0 <= k < fewer.len() && fewer[k] == last;
                assert(group.sessions[k] == group.sessions[n - 1]);
            }
        }
        assert(fewer.push(last) =~= some);
        assert(merged(before, some) == merged_session(earlier, last));
        assert(merged(before, some) =~= before.push(
            GroupView { name: group.name, sessions: some },
        ));
    }
}

proof fn merging_tidy_groups(groups: Seq<GroupView>)
    requires
        tidy(groups),
        forall|i: int| 0 <= i < groups.len() ==> (#[trigger] groups[i]).sessions.len() > 0,
    ensures
        merged(Seq::empty(), names_of(groups)) == groups,
    decreases groups.len(),
{
    if groups.len() > 0 {
        let before = groups.drop_last();
        let last = groups.last();
        assert(before.push(last) =~= groups);
        assert(tidy(before)) by {
            assert forall|i: int, j: int| 0 <= i < j < before.len() implies (#[trigger] before[i]).name
                != (#[trigger] before[j]).name by {
                assert(groups[i].name != groups[j].name);
            }
            assert forall|i: int, k: int|
                0 <= i < before.len() && 0 <= k < before[i].sessions.len() implies group_of(
                #[trigger] before[i].sessions[k],
            ) == before[i].name by {
                assert(groups[i].sessions[k] == before[i].sessions[k]);
            }
            assert forall|i: int| 0 <= i < before.len() implies (
            #[trigger] before[i]).sessions.no_duplicates() by {
                assert(groups[i] == before[i]);
            }
        }
        assert forall|i: int| 0 <= i < before.len() implies (#[trigger] before[i]).sessions.len()
            > 0 by {
            assert(groups[i] == before[i]);
        }
        merging_tidy_groups(before);
        merging_in_two_parts(Seq::empty(), names_of(before), last.sessions);
        assert(groups[groups.len() - 1].sessions.len() > 0);
        merging_a_group(before, last, last.sessions.len() as int);
        assert(last.sessions.take(last.sessions.len() as int) =~= last.sessions);
    }
}

/// Sorting sessions into their groups a second time changes nothing.
pub proof fn sorting_again_changes_nothing(groups: Seq<GroupView>)
    ensures
        ({
            let sorted = merged(Seq::empty(), names_of(groups));
            merged(Seq::empty(), names_of(sorted)) == sorted
        }),
{
    normal_groups_are_tidy(groups);
    normal_groups_follow(groups);
    merging_tidy_groups(merged(Seq::empty(), names_of(groups)));
}

/// How often a session is listed.
pub open spec fn times(groups: Seq<GroupView>, name: Seq<char>) -> nat {
    names_of(groups).to_multiset().count(name)
}

proof fn times_of_parts(before: Seq<GroupView>, last: GroupView, name: Seq<char>)
    ensures
        times(before.push(last), name) == times(before, name) + last.sessions.to_multiset().count(
            name,
        ),
{
    broadcast use vstd::multiset::group_multiset_axioms;

    assert(before.push(last).drop_last() =~= before);
    vstd::seq_lib::lemma_multiset_commutative(names_of(before), last.sessions);
}

proof fn times_after_update(groups: Seq<GroupView>, i: int, group: GroupView, name: Seq<char>)
    requires
        0 <= i < groups.len(),
    ensures
        times(groups.update(i, group), name) + groups[i].sessions.to_multiset().count(name)
            == times(groups, name) + group.sessions.to_multiset().count(name),
    decreases groups.len(),
{
    let before = groups.drop_last();
    let last = groups.last();
    assert(groups =~= before.push(last));
    times_of_parts(before, last, name);
    if i < before.len() {
        times_after_update(before, i, group, name);
        assert(groups.update(i, group) =~= before.update(i, group).push(last));
        times_of_parts(before.update(i, group), last, name);
    } else {
        assert(groups.update(i, group) =~= before.push(group));
        times_of_parts(before, group, name);
    }
}

proof fn times_after_swap(groups: Seq<GroupView>, i: int, j: int, name: Seq<char>)
    requires
        0 <= i < groups.len(),
        0 <= j < groups.len(),
    ensures
        times(swapped(groups, i, j), name) == times(groups, name),
{
    let first = groups.update(i, groups[j]);
    times_after_update(groups, i, groups[j], name);
    times_after_update(first, j, groups[i], name);
}

/// Moving a session changes the order only: every session is listed as often as before.
pub proof fn moving_loses_nothing(groups: Seq<GroupView>, name: Seq<char>, delta: int)
    ensures
        match moved(groups, name, delta) {
            Some(after) => names_of(after).to_multiset() == names_of(groups).to_multiset(),
            None => true,
        },
{
    broadcast use vstd::multiset::group_multiset_axioms;

    holder_at_bounds(groups, name);
    let at = holder_at(groups, name);
    match moved(groups, name, delta) {
        Some(after) => {
            let sessions = groups[at].sessions;
            name_at_bounds(sessions, name);
            let i = name_at(sessions, name);
            let to = if delta < 0 {
                i - 1
            } else {
                i + 1
            };
            let beside = if delta < 0 {
                at - 1
            } else {
                at + 1
            };
            let beyond = if delta < 0 {
                at - 2
            } else {
                at + 2
            };
            assert forall|n: Seq<char>| times(after, n) == times(groups, n) by {
                if 0 <= to < sessions.len() {
                    let first = sessions.update(i, sessions[to]);
                    vstd::seq_lib::to_multiset_update(sessions, i, sessions[to]);
                    vstd::seq_lib::to_multiset_update(first, to, sessions[i]);
                    vstd::seq_lib::to_multiset_contains(sessions, sessions[i]);
                    vstd::seq_lib::to_multiset_contains(first, first[to]);
                    assert(first[to] == sessions[to]);
                    let group = GroupView { sessions: swapped(sessions, i, to), ..groups[at] };
                    times_after_update(groups, at, group, n);
                } else if !stepped_over(name, groups[beside]) {
                    times_after_swap(groups, at, beside, n);
                } else {
                    times_after_swap(groups, at, beyond, n);
                }
            }
            assert(names_of(after).to_multiset() =~= names_of(groups).to_multiset()) by {
                assert forall|n: Seq<char>|
                    names_of(after).to_multiset().count(n) == names_of(groups).to_multiset().count(
                        n,
                    ) by {
                    assert(times(after, n) == times(groups, n));
                }
            }
        },
        None => {},
    }
}

/// Whether a session has room in its group, or has the group for itself: a move then takes along no
/// other session of the group.
pub open spec fn moves_alone(groups: Seq<GroupView>, name: Seq<char>, delta: int) -> bool {
    let sessions = groups[holder_at(groups, name)].sessions;
    let i = name_at(sessions, name);
    let to = if delta < 0 {
        i - 1
    } else {
        i + 1
    };
    sessions.len() == 1 || 0 <= to < sessions.len()
}

/// Moving back undoes a move, where every session is listed once. A group of several sessions that
/// was moved by the session at its edge is left out: moving back moves that session within it.
pub proof fn moving_back_restores(groups: Seq<GroupView>, name: Seq<char>, delta: int)
    requires
        names_of(groups).no_duplicates(),
        moved(groups, name, delta) is Some,
        moves_alone(groups, name, delta),
    ensures
        moved(moved(groups, name, delta).unwrap(), name, -delta) == Some(groups),
{
    holder_at_bounds(groups, name);
    let at = holder_at(groups, name);
    let sessions = groups[at].sessions;
    name_at_names(sessions, name);
    sessions_once(groups, at);
    let i = name_at(sessions, name);
    let to = if delta < 0 {
        i - 1
    } else {
        i + 1
    };
    let after = moved(groups, name, delta).unwrap();
    if 0 <= to < sessions.len() {
        let swap = swapped(sessions, i, to);
        assert forall|j: int| 0 <= j < to implies #[trigger] swap[j] != name by {
            assert(sessions[i] == name);
            if j == i {
                assert(swap[j] == sessions[to]);
            } else {
                assert(swap[j] == sessions[j]);
            }
        }
        assert(swap[to] == name);
        name_at_is(swap, name, to);
        assert forall|j: int| 0 <= j < at implies !(#[trigger] after[j]).sessions.contains(name) by {
            assert(after[j] == groups[j]);
            holder_at_first(groups, name, j);
        }
        assert(after[at].sessions[to] == name);
        holder_at_is(after, name, at);
        assert(swapped(swap, to, i) =~= sessions);
        assert(moved(after, name, -delta).unwrap() =~= groups);
    } else {
        let beside = if delta < 0 {
            at - 1
        } else {
            at + 1
        };
        let beyond = if delta < 0 {
            at - 2
        } else {
            at + 2
        };
        let far = stepped_over(name, groups[beside]);
        let goal = if far {
            beyond
        } else {
            beside
        };
        assert(after == swapped(groups, at, goal));
        assert forall|j: int| 0 <= j < goal implies !(#[trigger] after[j]).sessions.contains(
            name,
        ) by {
            let k = if j == at {
                goal
            } else {
                j
            };
            assert(after[j] == groups[k]);
            if groups[k].sessions.contains(name) {
                held_once(groups, name, k, at);
            }
        }
        assert(after[goal] == groups[at]);
        holder_at_is(after, name, goal);
        if far {
            assert(after[beside] == groups[beside]);
        } else {
            assert(after[at] == groups[beside]);
        }
        assert(swapped(after, goal, at) =~= groups);
    }
}

proof fn held_once(groups: Seq<GroupView>, name: Seq<char>, i: int, j: int)
    requires
        names_of(groups).no_duplicates(),
        0 <= i < groups.len(),
        0 <= j < groups.len(),
        groups[i].sessions.contains(name),
        groups[j].sessions.contains(name),
    ensures
        i == j,
    decreases groups.len(),
{
    let before = groups.drop_last();
    let all = names_of(groups);
    let earlier = names_of(before);
    let n = earlier.len();
    assert(earlier.no_duplicates()) by {
        assert forall|a: int, b: int| 0 <= a < n && 0 <= b < n && a != b implies earlier[a]
            != earlier[b] by {
            assert(all[a] == earlier[a] && all[b] == earlier[b]);
        }
    }
    if i < before.len() && j < before.len() {
        held_once(before, name, i, j);
    } else if i != j {
        let k = if i < before.len() {
            i
        } else {
            j
        };
        assert(before[k] == groups[k]);
        assert(lists(before, name));
        names_are_listed(before);
        let a = choose|a: int| 0 <= a < n && earlier[a] == name;
        let last = groups.last().sessions;
        let b = choose|b: int| 0 <= b < last.len() && last[b] == name;
        assert(all[a] == name);
        assert(all[n + b] == name);
    }
}

proof fn name_at_names(names: Seq<Seq<char>>, name: Seq<char>)
    requires
        names.contains(name),
    ensures
        0 <= name_at(names, name) < names.len(),
        names[name_at(names, name)] == name,
    decreases names.len(),
{
    if names[0] != name {
        let i = choose|i: int| 0 <= i < names.len() && names[i] == name;
        assert(names.drop_first()[i - 1] == name);
        name_at_names(names.drop_first(), name);
    }
}

proof fn holder_at_first(groups: Seq<GroupView>, name: Seq<char>, j: int)
    requires
        0 <= j < holder_at(groups, name),
        j < groups.len(),
    ensures
        !groups[j].sessions.contains(name),
    decreases groups.len(),
{
    if j > 0 {
        holder_at_first(groups.drop_first(), name, j - 1);
    }
}

proof fn sessions_once(groups: Seq<GroupView>, at: int)
    requires
        names_of(groups).no_duplicates(),
        0 <= at < groups.len(),
    ensures
        groups[at].sessions.no_duplicates(),
    decreases groups.len(),
{
    let before = groups.drop_last();
    let last = groups.last().sessions;
    let all = names_of(groups);
    let n = names_of(before).len();
    assert forall|i: int, j: int| 0 <= i < last.len() && 0 <= j < last.len() && i != j implies last[i]
        != last[j] by {
        assert(all[n + i] == last[i] && all[n + j] == last[j]);
    }
    if at < before.len() {
        assert forall|i: int, j: int|
            0 <= i < names_of(before).len() && 0 <= j < names_of(before).len() && i
                != j implies names_of(before)[i] != names_of(before)[j] by {
            assert(all[i] == names_of(before)[i] && all[j] == names_of(before)[j]);
        }
        sessions_once(before, at);
    }
}

/// Dropping the sessions that are gone leaves the others in their order.
pub proof fn pruning_keeps_the_order(groups: Seq<GroupView>, alive: Set<Seq<char>>)
    ensures
        names_of(pruned(groups, alive)) == names_of(groups).filter(
            |s: Seq<char>| alive.contains(s),
        ),
    decreases groups.len(),
{
    let keep = |s: Seq<char>| alive.contains(s);
    if groups.len() == 0 {
        reveal(Seq::filter);
        assert(names_of(groups).filter(keep) =~= Seq::<Seq<char>>::empty());
    } else {
        let before = groups.drop_last();
        let last = pruned_group(groups.last(), alive);
        pruning_keeps_the_order(before, alive);
        Seq::filter_distributes_over_add(names_of(before), groups.last().sessions, keep);
        if last.sessions.len() > 0 {
            assert(pruned(before, alive).push(last).drop_last() =~= pruned(before, alive));
        } else {
            assert(last.sessions =~= Seq::<Seq<char>>::empty());
            assert(names_of(before).filter(keep) + last.sessions =~= names_of(before).filter(keep));
        }
    }
}

proof fn with_session_adds(groups: Seq<GroupView>, name: Seq<char>, n: Seq<char>)
    ensures
        times(with_session(groups, name), n) == times(groups, n) + (if n == name && !lists(
            groups,
            name,
        ) {
            1nat
        } else {
            0nat
        }),
{
    broadcast use vstd::multiset::group_multiset_axioms;

    let group = group_of(name);
    let at = group_at(groups, group);
    let lone = lone_at(groups, group);
    group_at_bounds(groups, group);
    lone_at_bounds(groups, group);
    if lists(groups, name) {
    } else if at < groups.len() || lone < groups.len() {
        let i = if at < groups.len() {
            at
        } else {
            lone
        };
        let sessions = groups[i].sessions;
        vstd::seq_lib::to_multiset_build(sessions, name);
        times_after_update(groups, i, with_session(groups, name)[i], n);
    } else {
        let new_group = GroupView { name: group, sessions: seq![name] };
        times_of_parts(groups, new_group, n);
        assert(seq![name] =~= Seq::<Seq<char>>::empty().push(name));
        vstd::seq_lib::to_multiset_build(Seq::<Seq<char>>::empty(), name);
        assert(Seq::<Seq<char>>::empty().to_multiset().count(n) == 0) by {
            vstd::seq_lib::to_multiset_len(Seq::<Seq<char>>::empty());
            vstd::seq_lib::to_multiset_contains(Seq::<Seq<char>>::empty(), n);
        }
    }
}

proof fn lone_at_bounds(groups: Seq<GroupView>, name: Seq<char>)
    ensures
        0 <= lone_at(groups, name) <= groups.len(),
    decreases groups.len(),
{
    if groups.len() > 0 && groups[0].sessions != seq![name] {
        lone_at_bounds(groups.drop_first(), name);
    }
}

proof fn listed_has_times(groups: Seq<GroupView>, n: Seq<char>)
    ensures
        lists(groups, n) <==> times(groups, n) > 0,
{
    names_are_listed(groups);
    vstd::seq_lib::to_multiset_contains(names_of(groups), n);
}

proof fn with_sessions_adds(groups: Seq<GroupView>, names: Seq<Seq<char>>, n: Seq<char>)
    ensures
        times(groups, n) <= 1 ==> times(with_sessions(groups, names), n) <= 1,
        lists(with_sessions(groups, names), n) <==> lists(groups, n) || names.contains(n),
    decreases names.len(),
{
    if names.len() > 0 {
        let before = names.drop_last();
        let mid = with_sessions(groups, before);
        with_sessions_adds(groups, before, n);
        with_session_adds(mid, names.last(), n);
        listed_has_times(mid, n);
        listed_has_times(with_sessions(groups, names), n);
        if names.contains(n) && n != names.last() {
            let k = choose|k: int| 0 <= k < names.len() && names[k] == n;
            assert(before[k] == n);
        }
        if before.contains(n) {
            let k = choose|k: int| 0 <= k < before.len() && before[k] == n;
            assert(names[k] == n);
        }
        assert(names.contains(names.last())) by {
            assert(names[names.len() - 1] == names.last());
        }
    }
}

proof fn once_means_no_duplicates(groups: Seq<GroupView>)
    ensures
        names_of(groups).no_duplicates() <==> forall|n: Seq<char>| #[trigger] times(groups, n) <= 1,
{
    broadcast use vstd::multiset::group_multiset_axioms;

    let names = names_of(groups);
    if names.no_duplicates() {
        names.lemma_multiset_has_no_duplicates();
        assert forall|n: Seq<char>| #[trigger] times(groups, n) <= 1 by {
            if names.to_multiset().count(n) > 0 {
                assert(names.to_multiset().contains(n));
            }
        }
    }
    if forall|n: Seq<char>| #[trigger] times(groups, n) <= 1 {
        assert forall|n: Seq<char>| names.to_multiset().contains(n) implies names.to_multiset().count(
            n,
        ) == 1 by {
            assert(times(groups, n) <= 1);
        }
        names.lemma_multiset_has_no_duplicates_conv();
    }
}

/// Groups that are brought up to date list exactly the sessions that are alive, and each once where
/// each was listed once before.
pub proof fn refreshing_lists_the_living(groups: Seq<GroupView>, alive: Seq<Seq<char>>)
    ensures
        names_of(refreshed(groups, alive)).to_set() == alive.to_set(),
        names_of(groups).no_duplicates() ==> names_of(refreshed(groups, alive)).no_duplicates(),
{
    let listed = with_sessions(groups, alive);
    let names = names_of(listed);
    let keep = |s: Seq<char>| alive.to_set().contains(s);
    pruning_keeps_the_order(listed, alive.to_set());
    names_are_listed(listed);
    let kept = names.filter(keep);
    filter_is_exact(names, keep);
    assert forall|n: Seq<char>| kept.to_set().contains(n) == alive.to_set().contains(n) by {
        with_sessions_adds(groups, alive, n);
        assert(alive.contains(n) == alive.to_set().contains(n));
        assert(kept.contains(n) == (names.contains(n) && keep(n)));
    }
    assert(kept.to_set() =~= alive.to_set());
    if names_of(groups).no_duplicates() {
        once_means_no_duplicates(groups);
        assert forall|n: Seq<char>| #[trigger] times(listed, n) <= 1 by {
            with_sessions_adds(groups, alive, n);
            assert(times(groups, n) <= 1);
        }
        once_means_no_duplicates(listed);
        filter_keeps_once(names, keep);
    }
}

/// A filtered list holds what the list holds and the filter keeps.
pub proof fn filter_is_exact(names: Seq<Seq<char>>, keep: spec_fn(Seq<char>) -> bool)
    ensures
        forall|n: Seq<char>| names.filter(keep).contains(n) <==> names.contains(n) && keep(n),
    decreases names.len(),
{
    reveal(Seq::filter);
    if names.len() > 0 {
        let before = names.drop_last();
        filter_is_exact(before, keep);
        let kept = before.filter(keep);
        assert forall|n: Seq<char>| names.filter(keep).contains(n) <==> names.contains(n) && keep(n) by {
            if names.contains(n) && n != names.last() {
                let k = choose|k: int| 0 <= k < names.len() && names[k] == n;
                assert(before[k] == n);
            }
            if before.contains(n) {
                let k = choose|k: int| 0 <= k < before.len() && before[k] == n;
                assert(names[k] == n);
            }
            assert(names[names.len() - 1] == names.last());
            if keep(names.last()) {
                let more = kept.push(names.last());
                if kept.contains(n) {
                    let k = choose|k: int| 0 <= k < kept.len() && kept[k] == n;
                    assert(more[k] == n);
                }
                assert(more[kept.len() as int] == names.last());
                if more.contains(n) && n != names.last() {
                    let k = choose|k: int| 0 <= k < more.len() && more[k] == n;
                    assert(kept[k] == n);
                }
            }
        }
    }
}

/// A filtered list holds nothing twice where the list does not.
pub proof fn filter_keeps_once(names: Seq<Seq<char>>, keep: spec_fn(Seq<char>) -> bool)
    requires
        names.no_duplicates(),
    ensures
        names.filter(keep).no_duplicates(),
    decreases names.len(),
{
    reveal(Seq::filter);
    if names.len() > 0 {
        let before = names.drop_last();
        assert(before.no_duplicates());
        filter_keeps_once(before, keep);
        filter_is_exact(before, keep);
        let kept = before.filter(keep);
        if kept.contains(names.last()) {
            let k = choose|k: int| 0 <= k < before.len() && before[k] == names.last();
            assert(before.contains(names.last()));
            assert(names[k] == names[names.len() - 1]);
        }
        if keep(names.last()) {
            let more = kept.push(names.last());
            assert forall|i: int, j: int|
                0 <= i < more.len() && 0 <= j < more.len() && i != j implies more[i] != more[j] by {
                if i < kept.len() && j < kept.len() {
                    assert(more[i] == kept[i] && more[j] == kept[j]);
                } else if i < kept.len() {
                    assert(kept.contains(kept[i]));
                } else {
                    assert(kept.contains(kept[j]));
                }
            }
        }
    }
}

/// Tidy groups list every session once.
pub proof fn tidy_lists_once(groups: Seq<GroupView>)
    requires
        tidy(groups),
    ensures
        names_of(groups).no_duplicates(),
    decreases groups.len(),
{
    if groups.len() > 0 {
        let before = groups.drop_last();
        let last = groups.last();
        assert(tidy(before)) by {
            assert forall|i: int, k: int|
                0 <= i < before.len() && 0 <= k < before[i].sessions.len() implies group_of(
                #[trigger] before[i].sessions[k],
            ) == before[i].name by {
                assert(before[i] == groups[i]);
                assert(groups[i].sessions[k] == before[i].sessions[k]);
            }
            assert forall|i: int| 0 <= i < before.len() implies (
            #[trigger] before[i]).sessions.no_duplicates() by {
                assert(groups[i] == before[i]);
            }
        }
        tidy_lists_once(before);
        names_are_listed(before);
        let all = names_of(before);
        let n = all.len();
        assert(groups[groups.len() - 1].sessions.no_duplicates());
        assert forall|i: int, j: int|
            0 <= i < names_of(groups).len() && 0 <= j < names_of(groups).len() && i
                != j implies names_of(groups)[i] != names_of(groups)[j] by {
            if i < n && j >= n {
                apart(groups, all[i], j - n);
            } else if j < n && i >= n {
                apart(groups, all[j], i - n);
            }
        }
    }
}

proof fn apart(groups: Seq<GroupView>, name: Seq<char>, k: int)
    requires
        tidy(groups),
        groups.len() > 0,
        names_of(groups.drop_last()).contains(name),
        0 <= k < groups.last().sessions.len(),
    ensures
        groups.last().sessions[k] != name,
{
    let before = groups.drop_last();
    names_are_listed(before);
    assert(lists(before, name));
    let i = choose|i: int| 0 <= i < before.len() && (#[trigger] before[i]).sessions.contains(name);
    let m = choose|m: int| 0 <= m < before[i].sessions.len() && before[i].sessions[m] == name;
    assert(groups[i].sessions[m] == name);
    assert(group_of(groups[i].sessions[m]) == groups[i].name);
    assert(group_of(groups[groups.len() - 1].sessions[k]) == groups[groups.len() - 1].name);
}

proof fn filter_keeps_all(names: Seq<Seq<char>>, name: Seq<char>)
    requires
        !names.contains(name),
    ensures
        names.filter(|s: Seq<char>| s != name) == names,
    decreases names.len(),
{
    reveal(Seq::filter);
    if names.len() > 0 {
        let before = names.drop_last();
        assert(!before.contains(name)) by {
            if before.contains(name) {
                let k = choose|k: int| 0 <= k < before.len() && before[k] == name;
                assert(names[k] == name);
            }
        }
        filter_keeps_all(before, name);
        assert(names[names.len() - 1] == names.last());
        assert(before.push(names.last()) =~= names);
    } else {
        assert(names.filter(|s: Seq<char>| s != name) =~= names);
    }
}

proof fn appending_keeps_the_order(
    groups: Seq<GroupView>,
    i: int,
    group: GroupView,
    name: Seq<char>,
)
    requires
        0 <= i < groups.len(),
        group.sessions == groups[i].sessions.push(name),
        !names_of(groups).contains(name),
    ensures
        names_of(groups.update(i, group)).filter(|s: Seq<char>| s != name) == names_of(groups),
    decreases groups.len(),
{
    let keep = |s: Seq<char>| s != name;
    let before = groups.drop_last();
    let last = groups.last();
    let all = names_of(groups);
    assert(!names_of(before).contains(name)) by {
        if names_of(before).contains(name) {
            let k = choose|k: int| 0 <= k < names_of(before).len() && names_of(before)[k] == name;
            assert(all[k] == name);
        }
    }
    assert(!last.sessions.contains(name)) by {
        if last.sessions.contains(name) {
            let k = choose|k: int| 0 <= k < last.sessions.len() && last.sessions[k] == name;
            assert(all[names_of(before).len() + k] == name);
        }
    }
    filter_keeps_all(last.sessions, name);
    filter_keeps_all(names_of(before), name);
    let after = groups.update(i, group);
    if i < before.len() {
        appending_keeps_the_order(before, i, group, name);
        assert(after.drop_last() =~= before.update(i, group));
        assert(after.last() == last);
        Seq::filter_distributes_over_add(
            names_of(before.update(i, group)),
            last.sessions,
            keep,
        );
    } else {
        assert(after.drop_last() =~= before);
        assert(after.last() == group);
        Seq::filter_distributes_over_add(names_of(before), group.sessions, keep);
        filter_drops_last(last.sessions, name);
    }
}

proof fn filter_drops_last(names: Seq<Seq<char>>, name: Seq<char>)
    requires
        !names.contains(name),
    ensures
        names.push(name).filter(|s: Seq<char>| s != name) == names,
{
    filter_keeps_all(names, name);
    reveal(Seq::filter);
    assert(names.push(name).drop_last() =~= names);
}

/// A session that comes in leaves the order of the others as it is.
pub proof fn inserting_keeps_the_order(groups: Seq<GroupView>, name: Seq<char>)
    requires
        !lists(groups, name),
    ensures
        names_of(with_session(groups, name)).filter(|s: Seq<char>| s != name) == names_of(groups),
{
    let group = group_of(name);
    let at = group_at(groups, group);
    let lone = lone_at(groups, group);
    group_at_bounds(groups, group);
    lone_at_bounds(groups, group);
    names_are_listed(groups);
    let after = with_session(groups, name);
    if at < groups.len() {
        appending_keeps_the_order(groups, at, after[at], name);
    } else if lone < groups.len() {
        appending_keeps_the_order(groups, lone, after[lone], name);
    } else {
        assert(after.drop_last() =~= groups);
        assert(names_of(after) =~= names_of(groups).push(name));
        filter_drops_last(names_of(groups), name);
    }
}

/// The group of a session is what stands before the first slash of its name; without a slash it has
/// none.
pub proof fn groups_stand_before_the_slash(group: Seq<char>, rest: Seq<char>)
    requires
        !group.contains('/'),
    ensures
        group_of(group + seq!['/'] + rest) == group,
        group_of(group).len() == 0,
{
    let name = group + seq!['/'] + rest;
    let n = group.len() as int;
    assert forall|j: int| 0 <= j < n implies name[j] != '/' by {
        assert(name[j] == group[j]);
        assert(group.contains(group[j]));
    }
    assert(name[n] == '/');
    find_char_is(name, '/', n);
    assert(name.take(n) =~= group);
    assert forall|j: int| 0 <= j < n implies group[j] != '/' by {
        assert(group.contains(group[j]));
    }
    find_char_is(group, '/', n);
}

/// A new session comes last in its group; where there is no such group, it joins the session that stands
/// alone under the name of the group, and where there is none either, it begins a group at the end. One
/// that is listed already changes nothing.
pub proof fn new_sessions_join_their_group(groups: Seq<GroupView>, name: Seq<char>, i: int)
    ensures
        ({
            let group = group_of(name);
            let after = with_session(groups, name);
            let known = exists|j: int| 0 <= j < groups.len() && (#[trigger] groups[j]).name == group;
            let alone = exists|j: int|
                0 <= j < groups.len() && (#[trigger] groups[j]).sessions == seq![group];
            if lists(groups, name) {
                after == groups
            } else if known {
                0 <= i < groups.len() && groups[i].name == group && (forall|j: int|
                    0 <= j < i ==> (#[trigger] groups[j]).name != group) ==> {
                    &&& after.len() == groups.len()
                    &&& after[i].name == group
                    &&& after[i].sessions == groups[i].sessions.push(name)
                    &&& forall|j: int|
                        0 <= j < groups.len() && j != i ==> #[trigger] after[j] == groups[j]
                }
            } else if alone {
                0 <= i < groups.len() && groups[i].sessions == seq![group] && (forall|j: int|
                    0 <= j < i ==> (#[trigger] groups[j]).sessions != seq![group]) ==> {
                    &&& after.len() == groups.len()
                    &&& after[i].name == group
                    &&& after[i].sessions == seq![group, name]
                    &&& forall|j: int|
                        0 <= j < groups.len() && j != i ==> #[trigger] after[j] == groups[j]
                }
            } else {
                &&& after.len() == groups.len() + 1
                &&& after.drop_last() == groups
                &&& after.last().name == group
                &&& after.last().sessions == seq![name]
            }
        }),
{
    let group = group_of(name);
    let after = with_session(groups, name);
    group_at_bounds(groups, group);
    lone_at_bounds(groups, group);
    let known = exists|j: int| 0 <= j < groups.len() && (#[trigger] groups[j]).name == group;
    let alone = exists|j: int|
        0 <= j < groups.len() && (#[trigger] groups[j]).sessions == seq![group];
    if known {
        let j = choose|j: int| 0 <= j < groups.len() && (#[trigger] groups[j]).name == group;
        assert(group_at(groups, group) < groups.len()) by {
            if group_at(groups, group) == groups.len() {
                assert(groups[j].name != group);
            }
        }
        if 0 <= i < groups.len() && groups[i].name == group && (forall|j: int|
            0 <= j < i ==> (#[trigger] groups[j]).name != group) {
            group_at_is(groups, group, i);
        }
    } else {
        group_at_is(groups, group, groups.len() as int);
        if alone {
            if 0 <= i < groups.len() && groups[i].sessions == seq![group] && (forall|j: int|
                0 <= j < i ==> (#[trigger] groups[j]).sessions != seq![group]) {
                lone_at_is(groups, group, i);
                assert(seq![group].push(name) =~= seq![group, name]);
            }
        } else {
            lone_at_is(groups, group, groups.len() as int);
            if !lists(groups, name) {
                assert(after.drop_last() =~= groups);
            }
        }
    }
}

/// Moving a session up changes its place with the one before it in its group, and moving it down with the
/// one after it.
pub proof fn moving_goes_the_way_asked(
    groups: Seq<GroupView>,
    name: Seq<char>,
    at: int,
    i: int,
    delta: int,
)
    requires
        0 <= at < groups.len(),
        0 <= i < groups[at].sessions.len(),
        groups[at].sessions[i] == name,
        forall|j: int| 0 <= j < at ==> !(#[trigger] groups[j]).sessions.contains(name),
        forall|j: int| 0 <= j < i ==> #[trigger] groups[at].sessions[j] != name,
    ensures
        delta == 0 ==> moved(groups, name, delta) is None,
        delta < 0 && i > 0 ==> (moved(groups, name, delta) matches Some(after) && after.len()
            == groups.len() && after[at].name == groups[at].name && after[at].sessions[i - 1] == name
            && after[at].sessions[i] == groups[at].sessions[i - 1]),
        delta > 0 && i + 1 < groups[at].sessions.len() ==> (moved(groups, name, delta) matches Some(
            after,
        ) && after.len() == groups.len() && after[at].name == groups[at].name
            && after[at].sessions[i + 1] == name && after[at].sessions[i] == groups[at].sessions[i
            + 1]),
{
    assert(groups[at].sessions.contains(name));
    holder_at_is(groups, name, at);
    name_at_is(groups[at].sessions, name, i);
}

/// A session at the edge of its group takes the whole group along, past the group beside it; a session
/// without a group steps over a group of several. At the edge of all there is no way on.
pub proof fn groups_move_the_way_asked(
    groups: Seq<GroupView>,
    name: Seq<char>,
    at: int,
    i: int,
    delta: int,
)
    requires
        0 <= at < groups.len(),
        0 <= i < groups[at].sessions.len(),
        groups[at].sessions[i] == name,
        forall|j: int| 0 <= j < at ==> !(#[trigger] groups[j]).sessions.contains(name),
        forall|j: int| 0 <= j < i ==> #[trigger] groups[at].sessions[j] != name,
        delta != 0,
        delta < 0 ==> i == 0,
        delta > 0 ==> i + 1 == groups[at].sessions.len(),
    ensures
        ({
            let step: int = if delta < 0 {
                -1
            } else {
                1
            };
            let beside = at + step;
            let beyond = at + 2 * step;
            let over = group_of(name).len() == 0 && groups[beside].name.len() > 0
                && groups[beside].sessions.len() > 1;
            if !(0 <= beside < groups.len()) {
                moved(groups, name, delta) is None
            } else if !over {
                moved(groups, name, delta) matches Some(after) && after.len() == groups.len()
                    && after[beside] == groups[at] && after[at] == groups[beside]
            } else if 0 <= beyond < groups.len() {
                moved(groups, name, delta) matches Some(after) && after.len() == groups.len()
                    && after[beyond] == groups[at] && after[at] == groups[beyond]
            } else {
                moved(groups, name, delta) is None
            }
        }),
{
    assert(groups[at].sessions.contains(name));
    holder_at_is(groups, name, at);
    name_at_is(groups[at].sessions, name, i);
}

/// The lines of a list that count are those that are not empty.
pub proof fn empty_lines_are_passed(text: Seq<char>, line: Seq<char>)
    ensures
        listed_lines(text).contains(line) <==> lines_of(text).contains(line) && line.len() > 0,
{
    let keep = |line: Seq<char>| line.len() > 0;
    let list = lines_of(text);
    broadcast use {
        Seq::lemma_filter_pred,
        Seq::lemma_filter_contains,
        Seq::lemma_filter_contains_rev,
    };

    let kept = list.filter(keep);
    if kept.contains(line) {
        let i = choose|i: int| 0 <= i < kept.len() && kept[i] == line;
        assert(keep(kept[i]));
    }
    if list.contains(line) && keep(line) {
        let i = choose|i: int| 0 <= i < list.len() && list[i] == line;
        assert(keep(list[i]));
    }
}

}
