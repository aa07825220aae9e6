//! Named values in order: each name once, with the value that was set last.
use vstd::prelude::*;

verus! {

/// Names with values, as texts.
pub open spec fn pairs(v: Seq<(String, String)>) -> Seq<(Seq<char>, Seq<char>)> {
    Seq::new(v.len(), |i: int| (v[i].0@, v[i].1@))
}

/// The first position from `from` on at which the name stands.
pub open spec fn position(s: Seq<(Seq<char>, Seq<char>)>, name: Seq<char>, from: int) -> Option<int>
    decreases s.len() - from,
{
    if from >= s.len() {
        None
    } else if s[from].0 == name {
        Some(from)
    } else {
        position(s, name, from + 1)
    }
}

/// The value of a name.
pub open spec fn value_of(s: Seq<(Seq<char>, Seq<char>)>, name: Seq<char>) -> Option<Seq<char>> {
    match position(s, name, 0) {
        Some(i) => Some(s[i].1),
        None => None,
    }
}

/// The list with a name set to a value: in place where the name is there, else at the end.
pub open spec fn with_value(
    s: Seq<(Seq<char>, Seq<char>)>,
    name: Seq<char>,
    value: Seq<char>,
) -> Seq<(Seq<char>, Seq<char>)> {
    match position(s, name, 0) {
        Some(i) => s.update(i, (name, value)),
        None => s.push((name, value)),
    }
}

/// The list with all of `extra` set, one after the other.
pub open spec fn merged(
    base: Seq<(Seq<char>, Seq<char>)>,
    extra: Seq<(Seq<char>, Seq<char>)>,
) -> Seq<(Seq<char>, Seq<char>)>
    decreases extra.len(),
{
    if extra.len() == 0 {
        base
    } else {
        with_value(merged(base, extra.drop_last()), extra.last().0, extra.last().1)
    }
}

/// The list without a name: the entries of other names, in order.
pub open spec fn without(s: Seq<(Seq<char>, Seq<char>)>, name: Seq<char>) -> Seq<
    (Seq<char>, Seq<char>),
>
    decreases s.len(),
{
    if s.len() == 0 {
        Seq::empty()
    } else if s.last().0 == name {
        without(s.drop_last(), name)
    } else {
        without(s.drop_last(), name).push(s.last())
    }
}

/// Every name stands in the list once.
pub open spec fn names_differ(s: Seq<(Seq<char>, Seq<char>)>) -> bool {
    forall|i: int, j: int| 0 <= i < j < s.len() ==> s[i].0 != s[j].0
}

proof fn lemma_position(s: Seq<(Seq<char>, Seq<char>)>, name: Seq<char>, from: int)
    requires
        0 <= from,
    ensures
        (match position(s, name, from) {
            Some(i) => from <= i < s.len() && s[i].0 == name && forall|j: int|
                from <= j < i ==> (#[trigger] s[j]).0 != name,
            None => forall|j: int| from <= j < s.len() ==> (#[trigger] s[j]).0 != name,
        }),
    decreases s.len() - from,
{
    if from < s.len() && s[from].0 != name {
        lemma_position(s, name, from + 1);
    }
}

proof fn lemma_position_is(s: Seq<(Seq<char>, Seq<char>)>, name: Seq<char>, from: int, i: int)
    requires
        0 <= from <= i < s.len(),
        s[i].0 == name,
        forall|j: int| from <= j < i ==> (#[trigger] s[j]).0 != name,
    ensures
        position(s, name, from) == Some(i),
    decreases i - from,
{
    if from < i {
        lemma_position_is(s, name, from + 1, i);
    }
}

proof fn lemma_position_none(s: Seq<(Seq<char>, Seq<char>)>, name: Seq<char>, from: int)
    requires
        0 <= from,
        forall|j: int| from <= j < s.len() ==> (#[trigger] s[j]).0 != name,
    ensures
        position(s, name, from) is None,
    decreases s.len() - from,
{
    if from < s.len() {
        lemma_position_none(s, name, from + 1);
    }
}

/// A name that was set has the value that it was set to, every other name keeps its value,
/// and no name comes to stand in the list twice.
pub proof fn setting_a_value(
    s: Seq<(Seq<char>, Seq<char>)>,
    name: Seq<char>,
    value: Seq<char>,
    other: Seq<char>,
)
    ensures
        value_of(with_value(s, name, value), name) == Some(value),
        other != name ==> value_of(with_value(s, name, value), other) == value_of(s, other),
        names_differ(s) ==> names_differ(with_value(s, name, value)),
{
    let t = with_value(s, name, value);
    lemma_position(s, name, 0);
    match position(s, name, 0) {
        Some(i) => {
            assert forall|j: int| 0 <= j < i implies (#[trigger] t[j]).0 != name by {
                assert(t[j] == s[j]);
            }
            lemma_position_is(t, name, 0, i);
            assert forall|j: int| 0 <= j < s.len() implies (#[trigger] t[j]).0 == s[j].0 by {}
            if other != name {
                lemma_position(s, other, 0);
                match position(s, other, 0) {
                    Some(k) => {
                        assert(t[k] == s[k]);
                        assert forall|j: int| 0 <= j < k implies (#[trigger] t[j]).0 != other by {
                            assert(s[j].0 != other);
                        }
                        lemma_position_is(t, other, 0, k);
                    },
                    None => {
                        assert forall|j: int| 0 <= j < t.len() implies (#[trigger] t[j]).0
                            != other by {
                            assert(s[j].0 != other);
                        }
                        lemma_position_none(t, other, 0);
                    },
                }
            }
        },
        None => {
            let n = s.len() as int;
            assert(t[n] == (name, value));
            assert forall|j: int| 0 <= j < n implies #[trigger] t[j] == s[j] by {}
            assert forall|j: int| 0 <= j < n implies (#[trigger] t[j]).0 != name by {
                assert(s[j].0 != name);
            }
            lemma_position_is(t, name, 0, n);
            if other != name {
                lemma_position(s, other, 0);
                match position(s, other, 0) {
                    Some(k) => {
                        assert(t[k] == s[k]);
                        assert forall|j: int| 0 <= j < k implies (#[trigger] t[j]).0 != other by {
                            assert(s[j].0 != other);
                        }
                        lemma_position_is(t, other, 0, k);
                    },
                    None => {
                        assert forall|j: int| 0 <= j < t.len() implies (#[trigger] t[j]).0
                            != other by {
                            if j < n {
                                assert(s[j].0 != other);
                            }
                        }
                        lemma_position_none(t, other, 0);
                    },
                }
            }
            assert(names_differ(s) ==> names_differ(t)) by {
                if names_differ(s) {
                    assert forall|i: int, j: int| 0 <= i < j < t.len() implies t[i].0 != t[j].0 by {
                        assert(s[i].0 != name);
                        if j < n {
                            assert(s[i].0 != s[j].0);
                        }
                    }
                }
            }
        },
    }
}

/// After merging, a name that `extra` sets has the value that `extra` gives it last, and
/// every other name keeps its value.
pub proof fn extra_values_win(
    base: Seq<(Seq<char>, Seq<char>)>,
    extra: Seq<(Seq<char>, Seq<char>)>,
    name: Seq<char>,
)
    ensures
        (exists|i: int| 0 <= i < extra.len() && (#[trigger] extra[i]).0 == name) ==> exists|
            i: int,
        |
            0 <= i < extra.len() && (#[trigger] extra[i]).0 == name && (forall|j: int|
                i < j < extra.len() ==> (#[trigger] extra[j]).0 != name) && value_of(
                merged(base, extra),
                name,
            ) == Some(extra[i].1),
        (forall|i: int| 0 <= i < extra.len() ==> (#[trigger] extra[i]).0 != name) ==> value_of(
            merged(base, extra),
            name,
        ) == value_of(base, name),
        names_differ(base) ==> names_differ(merged(base, extra)),
    decreases extra.len(),
{
    if extra.len() > 0 {
        let head = extra.drop_last();
        let last = extra.last();
        extra_values_win(base, head, name);
        setting_a_value(merged(base, head), last.0, last.1, name);
        assert forall|i: int| 0 <= i < head.len() implies #[trigger] head[i] == extra[i] by {}
        if last.0 == name {
            assert(extra[extra.len() - 1].0 == name);
        } else if exists|i: int| 0 <= i < extra.len() && (#[trigger] extra[i]).0 == name {
            let i = choose|i: int| 0 <= i < extra.len() && (#[trigger] extra[i]).0 == name;
            assert(head[i].0 == name);
            let k = choose|k: int|
                0 <= k < head.len() && (#[trigger] head[k]).0 == name && (forall|j: int|
                    k < j < head.len() ==> (#[trigger] head[j]).0 != name) && value_of(
                    merged(base, head),
                    name,
                ) == Some(head[k].1);
            assert(extra[k].0 == name);
            assert forall|j: int| k < j < extra.len() implies (#[trigger] extra[j]).0 != name by {
                if j < head.len() {
                    assert(head[j].0 != name);
                }
            }
        } else {
            assert forall|i: int| 0 <= i < head.len() implies (#[trigger] head[i]).0 != name by {
                assert(extra[i].0 != name);
            }
        }
    }
}

/// A name that was removed has no value, and every other name keeps its value.
pub proof fn removing_a_name(
    s: Seq<(Seq<char>, Seq<char>)>,
    name: Seq<char>,
    other: Seq<char>,
)
    ensures
        value_of(without(s, name), name) is None,
        other != name ==> value_of(without(s, name), other) == value_of(s, other),
        names_differ(s) ==> names_differ(without(s, name)),
        forall|i: int|
            0 <= i < without(s, name).len() ==> s.contains(#[trigger] without(s, name)[i]),
    decreases s.len(),
{
    let t = without(s, name);
    if s.len() == 0 {
        assert(value_of(t, name) is None);
        assert(value_of(t, other) == value_of(s, other));
    } else {
        let front = s.drop_last();
        let kept = without(front, name);
        removing_a_name(front, name, other);
        assert forall|i: int| 0 <= i < t.len() implies s.contains(#[trigger] t[i]) by {
            if i < kept.len() {
                assert(front.contains(kept[i]));
                let k = choose|k: int| 0 <= k < front.len() && front[k] == kept[i];
                assert(s[k] == kept[i]);
            } else {
                assert(s[s.len() - 1] == t[i]);
            }
        }
        lemma_position_of_last(front, s.last(), name);
        lemma_position_of_last(front, s.last(), other);
        lemma_position_of_last(kept, s.last(), name);
        lemma_position_of_last(kept, s.last(), other);
        assert(front.push(s.last()) =~= s);
        assert(names_differ(s) ==> names_differ(t)) by {
            if names_differ(s) {
                assert(names_differ(front));
                assert forall|i: int, j: int| 0 <= i < j < t.len() implies t[i].0 != t[j].0 by {
                    if j < kept.len() {
                        assert(kept[i].0 != kept[j].0);
                    } else {
                        assert(front.contains(kept[i]));
                        let k = choose|k: int| 0 <= k < front.len() && front[k] == kept[i];
                        assert(s[k].0 != s[s.len() - 1].0);
                    }
                }
            }
        }
    }
}

proof fn lemma_position_of_last(
    s: Seq<(Seq<char>, Seq<char>)>,
    last: (Seq<char>, Seq<char>),
    name: Seq<char>,
)
    ensures
        value_of(s.push(last), name) == (match value_of(s, name) {
            Some(v) => Some(v),
            None => if last.0 == name {
                Some(last.1)
            } else {
                None
            },
        }),
{
    let t = s.push(last);
    lemma_position(s, name, 0);
    match position(s, name, 0) {
        Some(k) => {
            assert(t[k] == s[k]);
            assert forall|j: int| 0 <= j < k implies (#[trigger] t[j]).0 != name by {
                assert(s[j].0 != name);
            }
            lemma_position_is(t, name, 0, k);
        },
        None => {
            let n = s.len() as int;
            assert forall|j: int| 0 <= j < n implies (#[trigger] t[j]).0 != name by {
                assert(s[j].0 != name);
            }
            if last.0 == name {
                lemma_position_is(t, name, 0, n);
            } else {
                lemma_position_none(t, name, 0);
            }
        },
    }
}

fn same_text(a: &str, b: &str) -> (r: bool)
    ensures
        r == (a@ == b@),
{
    let chars = crate::text::chars_of(a);
    crate::text::is_text(chars.as_slice(), b)
}

/// The position of a name.
pub fn find_name(list: &Vec<(String, String)>, name: &str) -> (r: Option<usize>)
    ensures
        (match r {
            Some(i) => i < list@.len() && position(pairs(list@), name@, 0) == Some(i as int),
            None => position(pairs(list@), name@, 0) is None,
        }),
{
    let mut i: usize = 0;
    while i < list.len()
        invariant
            i <= list@.len(),
            position(pairs(list@), name@, 0) == position(pairs(list@), name@, i as int),
        decreases list@.len() - i,
    {
        if same_text(list[i].0.as_str(), name) {
            return Some(i);
        }
        i += 1;
    }
    None
}

/// Sets a name to a value.
pub fn put(list: &mut Vec<(String, String)>, name: &str, value: &str)
    ensures
        pairs(final(list)@) == with_value(pairs(old(list)@), name@, value@),
{
    match find_name(list, name) {
        Some(i) => {
            let ghost before = list@;
            list.set(i, (name.to_owned(), value.to_owned()));
            proof {
                assert(pairs(list@) =~= pairs(before).update(i as int, (name@, value@)));
            }
        },
        None => {
            let ghost before = list@;
            list.push((name.to_owned(), value.to_owned()));
            proof {
                assert(pairs(list@) =~= pairs(before).push((name@, value@)));
            }
        },
    }
}

/// A copy of a list.
pub fn copy_pairs(list: &Vec<(String, String)>) -> (out: Vec<(String, String)>)
    ensures
        pairs(out@) == pairs(list@),
{
    let mut out: Vec<(String, String)> = Vec::new();
    let mut i: usize = 0;
    while i < list.len()
        invariant
            i <= list@.len(),
            pairs(out@) == pairs(list@).take(i as int),
        decreases list@.len() - i,
    {
        let ghost before = out@;
        out.push((list[i].0.clone(), list[i].1.clone()));
        proof {
            assert(pairs(out@) =~= pairs(before).push(pairs(list@)[i as int]));
            assert(pairs(list@).take(i + 1) =~= pairs(list@).take(i as int).push(
                pairs(list@)[i as int],
            ));
        }
        i += 1;
    }
    proof {
        assert(pairs(list@).take(i as int) =~= pairs(list@));
    }
    out
}

/// The connection-level settings with those of one query over them.
pub fn merge_settings(base: &Vec<(String, String)>, extra: &Vec<(String, String)>) -> (out: Vec<
    (String, String),
>)
    ensures
        pairs(out@) == merged(pairs(base@), pairs(extra@)),
{
    let mut out = copy_pairs(base);
    let mut i: usize = 0;
    proof {
        assert(pairs(extra@).take(0) =~= Seq::empty());
    }
    while i < extra.len()
        invariant
            i <= extra@.len(),
            pairs(out@) == merged(pairs(base@), pairs(extra@).take(i as int)),
        decreases extra@.len() - i,
    {
        proof {
            let e = pairs(extra@);
            assert(e.take(i + 1).drop_last() =~= e.take(i as int));
            assert(e.take(i + 1).last() == e[i as int]);
        }
        put(&mut out, extra[i].0.as_str(), extra[i].1.as_str());
        i += 1;
    }
    proof {
        assert(pairs(extra@).take(i as int) =~= pairs(extra@));
    }
    out
}

/// Removes a name.
pub fn remove(list: &mut Vec<(String, String)>, name: &str)
    ensures
        pairs(final(list)@) == without(pairs(old(list)@), name@),
{
    let mut kept: Vec<(String, String)> = Vec::new();
    let ghost all = pairs(list@);
    let mut i: usize = 0;
    proof {
        assert(all.take(0) =~= Seq::empty());
        assert(pairs(kept@) =~= Seq::empty());
    }
    while i < list.len()
        invariant
            i <= list@.len(),
            all == pairs(list@),
            *list == *old(list),
            pairs(kept@) == without(all.take(i as int), name@),
        decreases list@.len() - i,
    {
        proof {
            assert(all.take(i + 1).drop_last() =~= all.take(i as int));
            assert(all.take(i + 1).last() == all[i as int]);
        }
        if !same_text(list[i].0.as_str(), name) {
            let ghost before = kept@;
            kept.push((list[i].0.clone(), list[i].1.clone()));
            proof {
                assert(pairs(kept@) =~= pairs(before).push(all[i as int]));
            }
        }
        i += 1;
    }
    proof {
        assert(all.take(i as int) =~= all);
    }
    *list = kept;
}

/// The value of a name.
pub fn get(list: &Vec<(String, String)>, name: &str) -> (r: Option<String>)
    ensures
        (match r {
            Some(v) => value_of(pairs(list@), name@) == Some(v@),
            None => value_of(pairs(list@), name@) is None,
        }),
{
    match find_name(list, name) {
        Some(i) => Some(list[i].1.clone()),
        None => None,
    }
}

/// Where every name stands once, a name has the value that stands with it, and a name that is not
/// there has none.
pub proof fn values_stand_with_their_names(s: Seq<(Seq<char>, Seq<char>)>, i: int, name: Seq<char>)
    requires
        names_differ(s),
        0 <= i < s.len(),
    ensures
        value_of(s, s[i].0) == Some(s[i].1),
        (forall|j: int| 0 <= j < s.len() ==> (#[trigger] s[j]).0 != name) ==> value_of(s, name)
            is None,
{
    lemma_position(s, s[i].0, 0);
    lemma_position(s, name, 0);
}

/// Setting a value keeps the order: a name that is there keeps its place, a new one comes last, and
/// all other entries stay where they are.
pub proof fn setting_a_value_keeps_the_order(
    s: Seq<(Seq<char>, Seq<char>)>,
    name: Seq<char>,
    value: Seq<char>,
    i: int,
)
    requires
        0 <= i < s.len(),
    ensures
        with_value(s, name, value)[i].0 == s[i].0,
        s[i].0 != name ==> with_value(s, name, value)[i] == s[i],
        (forall|j: int| 0 <= j < s.len() ==> (#[trigger] s[j]).0 != name) ==> with_value(
            s,
            name,
            value,
        ) == s.push((name, value)),
        with_value(s, name, value).len() <= s.len() + 1,
{
    lemma_position(s, name, 0);
}

/// The texts of a list are its names and values, in their order.
pub proof fn pairs_are_texts(v: Seq<(String, String)>, i: int)
    requires
        0 <= i < v.len(),
    ensures
        pairs(v).len() == v.len(),
        pairs(v)[i].0 == v[i].0@,
        pairs(v)[i].1 == v[i].1@,
{
}

} // verus!
