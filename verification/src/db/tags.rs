use vstd::prelude::*;

use crate::models::Tag;
use crate::text::{
    chars_of, last_piece, last_piece_of, lemma_split_on_props, lemma_split_on_without, split_char,
    split_on, string_of,
};

verus! {

/// The character sequences of `parts`.
pub open spec fn views(parts: Seq<Vec<char>>) -> Seq<Seq<char>> {
    parts.map_values(|p: Vec<char>| p@)
}

/// `t` answers to the path segment `p`: the last `'/'`-separated piece of
/// its name is `p`.
pub open spec fn answers_to(t: Tag, p: Seq<char>) -> bool {
    last_piece(t.name@, '/') == p
}

/// The index of the first tag at or after `from` that answers to `p`.
pub open spec fn find_tag(tags: Seq<Tag>, p: Seq<char>, from: int) -> Option<int>
    decreases tags.len() - from,
{
    if from < 0 || from >= tags.len() {
        None
    } else if answers_to(tags[from], p) {
        Some(from)
    } else {
        find_tag(tags, p, from + 1)
    }
}

/// `after` is `before` with the tag `full` (count `count`) inserted along
/// the path `parts`: the first tag answering to the first segment is
/// reused (its count set when the path ends there, otherwise the rest of
/// the path is inserted among its children); when none answers, a tag is
/// appended, named `full` with count `count` at the end of the path, or
/// named after the segment with count 0 (and the rest of the path below it)
/// on the way.
pub open spec fn inserted(
    before: Seq<Tag>,
    after: Seq<Tag>,
    parts: Seq<Seq<char>>,
    full: Seq<char>,
    count: u32,
) -> bool
    decreases parts.len(),
{
    if parts.len() == 0 {
        after == before
    } else {
        match find_tag(before, parts[0], 0) {
            Some(k) => {
                &&& 0 <= k < before.len()
                &&& after.len() == before.len()
                &&& forall|j: int| 0 <= j < before.len() && j != k ==> after[j] == before[j]
                &&& after[k].name == before[k].name
                &&& if parts.len() == 1 {
                    &&& after[k].note_count == count
                    &&& after[k].children@ == before[k].children@
                } else {
                    &&& after[k].note_count == before[k].note_count
                    &&& inserted(
                        before[k].children@,
                        after[k].children@,
                        parts.drop_first(),
                        full,
                        count,
                    )
                }
            },
            None => {
                &&& after.len() == before.len() + 1
                &&& after.take(before.len() as int) == before
                &&& if parts.len() == 1 {
                    &&& after.last().name@ == full
                    &&& after.last().note_count == count
                    &&& after.last().children@.len() == 0
                } else {
                    &&& after.last().name@ == parts[0]
                    &&& after.last().note_count == 0
                    &&& inserted(
                        Seq::empty(),
                        after.last().children@,
                        parts.drop_first(),
                        full,
                        count,
                    )
                }
            },
        }
    }
}

fn chars_equal(a: &[char], b: &[char]) -> (r: bool)
    ensures
        r == (a@ == b@),
{
    if a.len() != b.len() {
        return false;
    }
    let n = a.len();
    for i in 0..n
        invariant
            n == a@.len(),
            n == b@.len(),
            forall|j: int| 0 <= j < i ==> a@[j] == b@[j],
    {
        if a[i] != b[i] {
            return false;
        }
    }
    assert(a@ =~= b@);
    true
}

proof fn lemma_find_tag_skip(tags: Seq<Tag>, p: Seq<char>, from: int, i: int)
    requires
        0 <= from <= i <= tags.len(),
        forall|j: int| from <= j < i ==> !answers_to(#[trigger] tags[j], p),
    ensures
        find_tag(tags, p, from) == find_tag(tags, p, i),
    decreases i - from,
{
    if from < i {
        lemma_find_tag_skip(tags, p, from + 1, i);
    }
}

/// The index of the first tag of `tags` that answers to `p`.
fn find_tag_index(tags: &Vec<Tag>, p: &[char]) -> (r: Option<usize>)
    ensures
        match r {
            Some(k) => find_tag(tags@, p@, 0) == Some(k as int) && k < tags@.len(),
            None => find_tag(tags@, p@, 0) is None,
        },
{
    let n = tags.len();
    for k in 0..n
        invariant
            n == tags@.len(),
            find_tag(tags@, p@, 0) == find_tag(tags@, p@, k as int),
    {
        let name = chars_of(tags[k].name.as_str());
        let last = last_piece_of(name.as_slice(), '/');
        if chars_equal(last.as_slice(), p) {
            assert(answers_to(tags@[k as int], p@));
            return Some(k);
        }
        proof {
            assert(!answers_to(tags@[k as int], p@));
            lemma_find_tag_skip(tags@, p@, k as int, k + 1);
        }
    }
    None
}

/// Inserts the tag `full_name` with its count along the path `parts`.
fn insert_tag(tags: &mut Vec<Tag>, parts: &[Vec<char>], full_name: &str, count: u32)
    ensures
        inserted(old(tags)@, final(tags)@, views(parts@), full_name@, count),
    decreases parts@.len(),
{
    if parts.len() == 0 {
        return;
    }
    let ghost before = tags@;
    let ghost ps = views(parts@);
    let root = &parts[0];
    assert(ps[0] == root@);
    let rest = &parts[1..parts.len()];
    assert(views(rest@) == ps.drop_first());
    let found = find_tag_index(tags, root.as_slice());
    if parts.len() == 1 {
        match found {
            Some(k) => {
                let mut t = tags.remove(k);
                t.note_count = count;
                tags.insert(k, t);
                assert forall|j: int| 0 <= j < before.len() && j != k implies tags@[j]
                    == before[j] by {
                    if j < k {
                        assert(tags@[j] == before[j]);
                    } else {
                        assert(tags@[j] == before[j]);
                    }
                }
            },
            None => {
                tags.push(Tag { name: full_name.to_owned(), note_count: count, children: Vec::new() });
                assert(tags@.take(before.len() as int) == before);
            },
        }
    } else {
        match found {
            Some(k) => {
                let mut t = tags.remove(k);
                let ghost old_t = t;
                insert_tag(&mut t.children, rest, full_name, count);
                tags.insert(k, t);
                assert forall|j: int| 0 <= j < before.len() && j != k implies tags@[j]
                    == before[j] by {
                    if j < k {
                        assert(tags@[j] == before[j]);
                    } else {
                        assert(tags@[j] == before[j]);
                    }
                }
            },
            None => {
                let mut new_tag = Tag {
                    name: string_of(root.as_slice()),
                    note_count: 0,
                    children: Vec::new(),
                };
                insert_tag(&mut new_tag.children, rest, full_name, count);
                tags.push(new_tag);
                assert(tags@.take(before.len() as int) == before);
            },
        }
    }
}


/// The path of a tag name: its `'/'`-separated segments.
pub open spec fn tag_path(name: Seq<char>) -> Seq<Seq<char>> {
    split_on(name, '/')
}

/// `states` records the forest before and after each insertion of the
/// tags of `flat`, in order, starting from the empty forest.
pub open spec fn built_from(flat: Seq<(String, u32)>, states: Seq<Seq<Tag>>) -> bool {
    &&& states.len() == flat.len() + 1
    &&& states[0].len() == 0
    &&& forall|i: int|
        0 <= i < flat.len() ==> inserted(
            #[trigger] states[i],
            states[i + 1],
            tag_path(flat[i].0@),
            flat[i].0@,
            flat[i].1,
        )
}

/// `tree` is what inserting the tags of `flat`, in order, into an empty
/// forest yields.
pub open spec fn built(flat: Seq<(String, u32)>, tree: Seq<Tag>) -> bool {
    exists|states: Seq<Seq<Tag>>| #[trigger] built_from(flat, states) && states.last() == tree
}

/// The count found by walking `parts` down the forest `tags`, taking at
/// each level the first tag that answers to the segment.
pub open spec fn lookup(tags: Seq<Tag>, parts: Seq<Seq<char>>) -> Option<u32>
    decreases parts.len(),
{
    if parts.len() == 0 {
        None
    } else {
        match find_tag(tags, parts[0], 0) {
            None => None,
            Some(k) => {
                if !(0 <= k < tags.len()) {
                    None
                } else if parts.len() == 1 {
                    Some(tags[k].note_count)
                } else {
                    lookup(tags[k].children@, parts.drop_first())
                }
            },
        }
    }
}

/// Builds the tag tree from `(name, count)` pairs: each name is split on
/// `'/'` into a path and inserted in order.
pub fn build_tag_tree(flat_tags: &[(String, u32)]) -> (roots: Vec<Tag>)
    ensures
        built(flat_tags@, roots@),
{
    let mut roots: Vec<Tag> = Vec::new();
    let n = flat_tags.len();
    let ghost mut states: Seq<Seq<Tag>> = seq![roots@];
    for i in 0..n
        invariant
            n == flat_tags@.len(),
            states.len() == i + 1,
            states[0].len() == 0,
            states.last() == roots@,
            forall|k: int|
                0 <= k < i ==> inserted(
                    #[trigger] states[k],
                    states[k + 1],
                    tag_path(flat_tags@[k].0@),
                    flat_tags@[k].0@,
                    flat_tags@[k].1,
                ),
    {
        let name = &flat_tags[i].0;
        let count = flat_tags[i].1;
        let name_chars = chars_of(name.as_str());
        let parts = split_char(name_chars.as_slice(), '/');
        assert(views(parts@) == tag_path(name@));
        let ghost mid = roots@;
        insert_tag(&mut roots, parts.as_slice(), name.as_str(), count);
        proof {
            let old_states = states;
            states = states.push(roots@);
            assert forall|k: int|
                0 <= k < i + 1 implies inserted(
                #[trigger] states[k],
                states[k + 1],
                tag_path(flat_tags@[k].0@),
                flat_tags@[k].0@,
                flat_tags@[k].1,
            ) by {
                assert(states[k] == old_states[k]);
                if k < i {
                    assert(states[k + 1] == old_states[k + 1]);
                }
            }
        }
    }
    assert(built_from(flat_tags@, states));
    roots
}

proof fn lemma_find_tag_props(tags: Seq<Tag>, p: Seq<char>, from: int)
    requires
        0 <= from,
    ensures
        match find_tag(tags, p, from) {
            Some(k) => from <= k < tags.len() && answers_to(tags[k], p) && forall|j: int|
                from <= j < k ==> !answers_to(#[trigger] tags[j], p),
            None => forall|j: int| from <= j < tags.len() ==> !answers_to(#[trigger] tags[j], p),
        },
    decreases tags.len() - from,
{
    if from < tags.len() && !answers_to(tags[from], p) {
        lemma_find_tag_props(tags, p, from + 1);
    }
}

proof fn lemma_find_tag_first(tags: Seq<Tag>, p: Seq<char>, k: int)
    requires
        0 <= k < tags.len(),
        answers_to(tags[k], p),
        forall|j: int| 0 <= j < k ==> !answers_to(#[trigger] tags[j], p),
    ensures
        find_tag(tags, p, 0) == Some(k),
{
    lemma_find_tag_skip(tags, p, 0, k);
}

/// Segments made by splitting on `'/'` hold no `'/'`, and the last one is
/// the last piece of the full name.
pub open spec fn well_formed_path(parts: Seq<Seq<char>>, full: Seq<char>) -> bool {
    &&& parts.len() > 0
    &&& parts.last() == last_piece(full, '/')
    &&& forall|k: int, j: int|
        0 <= k < parts.len() && 0 <= j < parts[k].len() ==> #[trigger] parts[k][j] != '/'
}

proof fn lemma_tag_path_well_formed(full: Seq<char>)
    ensures
        well_formed_path(tag_path(full), full),
{
    lemma_split_on_props(full, '/');
}

proof fn lemma_insert_then_lookup(
    before: Seq<Tag>,
    after: Seq<Tag>,
    parts: Seq<Seq<char>>,
    full: Seq<char>,
    count: u32,
)
    requires
        inserted(before, after, parts, full, count),
        well_formed_path(parts, full),
    ensures
        lookup(after, parts) == Some(count),
    decreases parts.len(),
{
    lemma_find_tag_props(before, parts[0], 0);
    if parts.len() > 1 {
        let rest = parts.drop_first();
        assert(rest.last() == parts.last());
        assert forall|k: int, j: int| 0 <= k < rest.len() && 0 <= j < rest[k].len() implies #[trigger] rest[k][j] != '/' by {
            assert(rest[k] == parts[k + 1]);
        }
    }
    match find_tag(before, parts[0], 0) {
        Some(k) => {
            assert(answers_to(after[k], parts[0]));
            assert forall|j: int| 0 <= j < k implies !answers_to(#[trigger] after[j], parts[0]) by {
                assert(after[j] == before[j]);
            }
            lemma_find_tag_first(after, parts[0], k);
            if parts.len() > 1 {
                lemma_insert_then_lookup(
                    before[k].children@,
                    after[k].children@,
                    parts.drop_first(),
                    full,
                    count,
                );
            }
        },
        None => {
            let k = before.len() as int;
            assert(after[k] == after.last());
            if parts.len() == 1 {
                assert(parts[0] == parts.last());
            } else {
                assert forall|j: int| 0 <= j < parts[0].len() implies parts[0][j] != '/' by {
                    assert(parts[0][j] != '/');
                }
                lemma_split_on_without(parts[0], '/');
            }
            assert(answers_to(after[k], parts[0]));
            assert forall|j: int| 0 <= j < k implies !answers_to(#[trigger] after[j], parts[0]) by {
                assert(after[j] == after.take(k)[j]);
            }
            lemma_find_tag_first(after, parts[0], k);
            if parts.len() > 1 {
                lemma_insert_then_lookup(
                    Seq::empty(),
                    after[k].children@,
                    parts.drop_first(),
                    full,
                    count,
                );
            }
        },
    }
}

proof fn lemma_insert_keeps_lookup(
    before: Seq<Tag>,
    after: Seq<Tag>,
    q: Seq<Seq<char>>,
    full: Seq<char>,
    count: u32,
    p: Seq<Seq<char>>,
)
    requires
        inserted(before, after, q, full, count),
        lookup(before, p) is Some,
        p != q,
    ensures
        lookup(after, p) == lookup(before, p),
    decreases q.len(),
{
    if q.len() == 0 {
        return;
    }
    lemma_find_tag_props(before, p[0], 0);
    lemma_find_tag_props(before, q[0], 0);
    let kp = find_tag(before, p[0], 0)->0;
    match find_tag(before, q[0], 0) {
        Some(k) => {
            assert forall|j: int| 0 <= j < kp implies !answers_to(#[trigger] after[j], p[0]) by {
                if j != k {
                    assert(after[j] == before[j]);
                }
            }
            if kp != k {
                assert(after[kp] == before[kp]);
            }
            lemma_find_tag_first(after, p[0], kp);
            if kp == k {
                assert(p[0] == q[0]);
                if q.len() == 1 {
                    if p.len() == 1 {
                        assert(p =~= q);
                    }
                } else if p.len() > 1 {
                    assert(p.drop_first() != q.drop_first()) by {
                        if p.drop_first() == q.drop_first() {
                            assert(p.len() == q.drop_first().len() + 1);
                            assert forall|j: int| 0 < j < p.len() implies p[j] == q[j] by {
                                assert(p[j] == p.drop_first()[j - 1]);
                                assert(q[j] == q.drop_first()[j - 1]);
                            }
                            assert(p =~= q);
                        }
                    }
                    lemma_insert_keeps_lookup(
                        before[k].children@,
                        after[k].children@,
                        q.drop_first(),
                        full,
                        count,
                        p.drop_first(),
                    );
                }
            }
        },
        None => {
            assert forall|j: int| 0 <= j < kp implies !answers_to(#[trigger] after[j], p[0]) by {
                assert(after[j] == after.take(before.len() as int)[j]);
            }
            assert(after[kp] == after.take(before.len() as int)[kp]);
            lemma_find_tag_first(after, p[0], kp);
        },
    }
}

proof fn lemma_states_find_tag(flat: Seq<(String, u32)>, states: Seq<Seq<Tag>>, i: int, m: int)
    requires
        built_from(flat, states),
        0 <= i < m <= flat.len(),
        forall|j: int| i < j < flat.len() ==> tag_path(#[trigger] flat[j].0@) != tag_path(flat[i].0@),
    ensures
        lookup(states[m], tag_path(flat[i].0@)) == Some(flat[i].1),
    decreases m - i,
{
    if m == i + 1 {
        assert(inserted(states[i], states[i + 1], tag_path(flat[i].0@), flat[i].0@, flat[i].1));
        lemma_tag_path_well_formed(flat[i].0@);
        lemma_insert_then_lookup(states[i], states[m], tag_path(flat[i].0@), flat[i].0@, flat[i].1);
    } else {
        lemma_states_find_tag(flat, states, i, m - 1);
        let j = m - 1;
        assert(inserted(states[j], states[j + 1], tag_path(flat[j].0@), flat[j].0@, flat[j].1));
        assert(tag_path(flat[j].0@) != tag_path(flat[i].0@));
        lemma_insert_keeps_lookup(
            states[j],
            states[m],
            tag_path(flat[j].0@),
            flat[j].0@,
            flat[j].1,
            tag_path(flat[i].0@),
        );
    }
}

/// Law: in the tree built from `flat`, walking the path of a tag name
/// finds the count given with that name, unless a later entry has the same
/// path (the later count then wins).
pub proof fn law_tag_tree_finds_each_tag(flat: Seq<(String, u32)>, tree: Seq<Tag>, i: int)
    requires
        built(flat, tree),
        0 <= i < flat.len(),
        forall|j: int| i < j < flat.len() ==> tag_path(#[trigger] flat[j].0@) != tag_path(flat[i].0@),
    ensures
        lookup(tree, tag_path(flat[i].0@)) == Some(flat[i].1),
{
    let states = choose|states: Seq<Seq<Tag>>| #[trigger] built_from(flat, states) && states.last() == tree;
    lemma_states_find_tag(flat, states, i, flat.len() as int);
}

/// Law: inserting a tag and then walking its path finds its count.
pub proof fn law_insert_then_lookup(before: Seq<Tag>, after: Seq<Tag>, full: Seq<char>, count: u32)
    requires
        inserted(before, after, tag_path(full), full, count),
    ensures
        lookup(after, tag_path(full)) == Some(count),
{
    lemma_tag_path_well_formed(full);
    lemma_insert_then_lookup(before, after, tag_path(full), full, count);
}

/// Law: inserting a tag leaves what every other existing path finds unchanged.
pub proof fn law_insert_keeps_other_paths(
    before: Seq<Tag>,
    after: Seq<Tag>,
    full: Seq<char>,
    count: u32,
    p: Seq<Seq<char>>,
)
    requires
        inserted(before, after, tag_path(full), full, count),
        lookup(before, p) is Some,
        p != tag_path(full),
    ensures
        lookup(after, p) == lookup(before, p),
{
    lemma_insert_keeps_lookup(before, after, tag_path(full), full, count, p);
}

} // verus!
