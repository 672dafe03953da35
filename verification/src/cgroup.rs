//! Control groups: what `/proc/<pid>/cgroup` says about the groups of a
//! process.

use crate::text::{
    chars_of, holds_text, index_of, lemma_index_of_is, pieces, split_terminated, texts,
};
use vstd::prelude::*;
use vstd::string::*;

verus! {

/// One hierarchy of control groups and the group of the process in it.
pub struct GroupPath {
    /// The controllers of the hierarchy.
    pub controllers: Vec<String>,
    /// The path of the group below the root of the hierarchy.
    pub path: String,
}

/// A hierarchy and a group, as text.
pub struct GroupText {
    pub controllers: Seq<Seq<char>>,
    pub path: Seq<char>,
}

impl View for GroupPath {
    type V = GroupText;

    open spec fn view(&self) -> GroupText {
        GroupText { controllers: texts(self.controllers@), path: self.path@ }
    }
}

/// What a line `<id>:<controllers>:<path>` says: the controllers are the
/// names between the first and the second colon, with commas between them;
/// the path is all that follows the second colon. A line with fewer than
/// two colons says nothing.
pub open spec fn line_group(line: Seq<char>) -> Option<GroupText> {
    let a = index_of(line, ':');
    if 0 <= a < line.len() {
        let rest = line.skip(a + 1);
        let b = index_of(rest, ':');
        if 0 <= b < rest.len() {
            Some(GroupText { controllers: pieces(rest.take(b), ','), path: rest.skip(b + 1) })
        } else {
            None
        }
    } else {
        None
    }
}

/// The group of each line.
pub open spec fn group_text(o: Option<GroupPath>) -> Option<GroupText> {
    match o {
        Some(g) => Some(g@),
        None => None,
    }
}

/// Reads one line of `/proc/<pid>/cgroup`.
pub fn parse_line(line: &str) -> (group: Option<GroupPath>)
    ensures
        group_text(group) == line_group(line@),
{
    let v = chars_of(line);
    let mut a: usize = 0;
    while a < v.len() && v[a] != ':'
        invariant
            a <= v.len(),
            v@ == line@,
            forall|i: int| 0 <= i < a ==> line@[i] != ':',
        decreases v.len() - a,
    {
        a += 1;
    }
    proof {
        lemma_index_of_is(line@, ':', a as int);
    }
    if a >= v.len() {
        return None;
    }
    let ghost rest = line@.skip(a + 1);
    let mut b: usize = a + 1;
    while b < v.len() && v[b] != ':'
        invariant
            a < b <= v.len(),
            v@ == line@,
            forall|i: int| a < i < b ==> line@[i] != ':',
        decreases v.len() - b,
    {
        b += 1;
    }
    proof {
        lemma_index_of_is(rest, ':', b - (a + 1));
    }
    if b >= v.len() {
        return None;
    }
    let names = line.substring_char(a + 1, b);
    let path = line.substring_char(b + 1, v.len());
    proof {
        assert(names@ =~= rest.take(b - (a + 1)));
        assert(path@ =~= rest.skip(b - (a + 1) + 1));
    }
    Some(GroupPath { controllers: split_terminated(names, ','), path: path.to_owned() })
}

/// The groups that the lines `lines` name, in order.
pub open spec fn lines_groups(lines: Seq<Seq<char>>) -> Seq<GroupText>
    decreases lines.len(),
{
    if lines.len() == 0 {
        Seq::<GroupText>::empty()
    } else {
        match line_group(lines.last()) {
            Some(g) => lines_groups(lines.drop_last()).push(g),
            None => lines_groups(lines.drop_last()),
        }
    }
}

/// The groups of `groups`, as text.
pub open spec fn groups_text(groups: Seq<GroupPath>) -> Seq<GroupText> {
    Seq::new(groups.len(), |i: int| groups[i]@)
}

/// Reads the content of `/proc/<pid>/cgroup`: a line for each hierarchy.
pub fn parse_cgroups(content: &str) -> (groups: Vec<GroupPath>)
    ensures
        groups_text(groups@) == lines_groups(pieces(content@, '\n')),
{
    let lines = split_terminated(content, '\n');
    let mut groups: Vec<GroupPath> = Vec::new();
    let mut i: usize = 0;
    assert(texts(lines@).take(0) =~= Seq::<Seq<char>>::empty());
    assert(groups_text(groups@) =~= Seq::<GroupText>::empty());
    while i < lines.len()
        invariant
            i <= lines.len(),
            groups_text(groups@) == lines_groups(texts(lines@).take(i as int)),
        decreases lines.len() - i,
    {
        proof {
            let t = texts(lines@);
            assert(t.take(i as int + 1).drop_last() =~= t.take(i as int));
            assert(t.take(i as int + 1).last() == lines@[i as int]@);
        }
        match parse_line(lines[i].as_str()) {
            Some(g) => {
                let ghost before = groups_text(groups@);
                let ghost text = g@;
                groups.push(g);
                assert(groups_text(groups@) =~= before.push(text));
            },
            None => {},
        }
        i += 1;
    }
    assert(texts(lines@).take(lines.len() as int) =~= texts(lines@));
    groups
}

impl GroupPath {
    /// Is `name` one of the controllers of the hierarchy?
    pub fn has_controller(&self, name: &String) -> (r: bool)
        ensures
            r == self@.controllers.contains(name@),
    {
        holds_text(&self.controllers, name)
    }

    /// Is one of `names` a controller of the hierarchy?
    pub fn has_any(&self, names: &Vec<String>) -> (r: bool)
        ensures
            r == exists|i: int|
                0 <= i < names@.len() && self@.controllers.contains(#[trigger] names@[i]@),
    {
        let mut i: usize = 0;
        while i < names.len()
            invariant
                i <= names.len(),
                forall|k: int| 0 <= k < i ==> !self@.controllers.contains(#[trigger] names@[k]@),
            decreases names.len() - i,
        {
            if self.has_controller(&names[i]) {
                return true;
            }
            i += 1;
        }
        false
    }
}

/// Does the path `path` lie in the directory `dir` or below it?
pub open spec fn below(path: Seq<char>, dir: Seq<char>) -> bool {
    ||| path == dir
    ||| dir.is_prefix_of(path) && dir.len() > 0 && dir.last() == '/'
    ||| dir.is_prefix_of(path) && path.len() > dir.len() && path[dir.len() as int] == '/'
}

/// Does the path `path` lie in the directory `dir` or below it? Both are
/// written without `.` and `..`, and without a slash at the end, but for
/// the root.
pub fn is_below(path: &str, dir: &str) -> (r: bool)
    ensures
        r == below(path@, dir@),
{
    let p = chars_of(path);
    let d = chars_of(dir);
    if d.len() > p.len() {
        assert(!dir@.is_prefix_of(path@));
        assert(path@ != dir@);
        return false;
    }
    let mut i: usize = 0;
    while i < d.len()
        invariant
            i <= d.len() <= p.len(),
            p@ == path@,
            d@ == dir@,
            forall|k: int| 0 <= k < i ==> p@[k] == d@[k],
        decreases d.len() - i,
    {
        if p[i] != d[i] {
            assert(path@.subrange(0, dir@.len() as int)[i as int] != dir@[i as int]);
            return false;
        }
        i += 1;
    }
    assert(path@.subrange(0, dir@.len() as int) =~= dir@);
    if p.len() == d.len() {
        assert(path@ =~= dir@);
        return true;
    }
    (d.len() > 0 && d[d.len() - 1] == '/') || p[d.len()] == '/'
}

} // verus!
