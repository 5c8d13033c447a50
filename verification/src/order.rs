use vstd::prelude::*;

verus! {

/// One line of a timetable: the instant a task is due and the task's identifier.
pub type Entry = (u64, Seq<char>);

/// Strict order on identifiers: character by character, by code point; a proper
/// prefix comes before the longer identifier.
pub open spec fn id_lt(a: Seq<char>, b: Seq<char>) -> bool
    decreases a.len(),
{
    if b.len() == 0 {
        false
    } else if a.len() == 0 {
        true
    } else if a[0] == b[0] {
        id_lt(a.drop_first(), b.drop_first())
    } else {
        (a[0] as int) < (b[0] as int)
    }
}

/// Strict order on entries: the earlier instant first, and among equal instants
/// the smaller identifier first.
pub open spec fn entry_lt(a: Entry, b: Entry) -> bool {
    a.0 < b.0 || (a.0 == b.0 && id_lt(a.1, b.1))
}

/// No identifier is smaller than itself.
pub proof fn lemma_id_lt_irreflexive(a: Seq<char>)
    ensures
        !id_lt(a, a),
    decreases a.len(),
{
    if a.len() > 0 {
        lemma_id_lt_irreflexive(a.drop_first());
    }
}

/// The order on identifiers is transitive.
pub proof fn lemma_id_lt_transitive(a: Seq<char>, b: Seq<char>, c: Seq<char>)
    requires
        id_lt(a, b),
        id_lt(b, c),
    ensures
        id_lt(a, c),
    decreases a.len(),
{
    if a.len() > 0 && a[0] == b[0] && b[0] == c[0] {
        lemma_id_lt_transitive(a.drop_first(), b.drop_first(), c.drop_first());
    }
}

/// Any two different identifiers are ordered one way or the other.
pub proof fn lemma_id_lt_total(a: Seq<char>, b: Seq<char>)
    ensures
        a == b || id_lt(a, b) || id_lt(b, a),
    decreases a.len(),
{
    if a.len() == 0 || b.len() == 0 {
        if a.len() == 0 && b.len() == 0 {
            assert(a =~= b);
        }
    } else if a[0] == b[0] {
        lemma_id_lt_total(a.drop_first(), b.drop_first());
        if a.drop_first() == b.drop_first() {
            assert(a =~= seq![a[0]] + a.drop_first());
            assert(b =~= seq![b[0]] + b.drop_first());
        }
    } else {
        assert((a[0] as int) != (b[0] as int));
    }
}

/// No entry comes before itself.
pub proof fn lemma_entry_lt_irreflexive(a: Entry)
    ensures
        !entry_lt(a, a),
{
    lemma_id_lt_irreflexive(a.1);
}

/// The order on entries is transitive.
pub proof fn lemma_entry_lt_transitive(a: Entry, b: Entry, c: Entry)
    requires
        entry_lt(a, b),
        entry_lt(b, c),
    ensures
        entry_lt(a, c),
{
    if a.0 == b.0 && b.0 == c.0 {
        lemma_id_lt_transitive(a.1, b.1, c.1);
    }
}

/// Any two different entries are ordered one way or the other.
pub proof fn lemma_entry_lt_total(a: Entry, b: Entry)
    ensures
        a == b || entry_lt(a, b) || entry_lt(b, a),
{
    lemma_id_lt_total(a.1, b.1);
}

/// Two entries are never each before the other.
pub proof fn lemma_entry_lt_asymmetric(a: Entry, b: Entry)
    requires
        entry_lt(a, b),
    ensures
        !entry_lt(b, a),
{
    if entry_lt(b, a) {
        lemma_entry_lt_transitive(a, b, a);
        lemma_entry_lt_irreflexive(a);
    }
}

/// Whether the entries stand in strictly ascending order.
pub open spec fn sorted(s: Seq<Entry>) -> bool {
    forall|i: int, j: int| 0 <= i < j < s.len() ==> entry_lt(#[trigger] s[i], #[trigger] s[j])
}

/// How many entries at the front of `s` come strictly before `v`. In an ascending
/// sequence this is where `v` stands if it occurs, and where it belongs if not.
pub open spec fn rank(s: Seq<Entry>, v: Entry) -> int
    decreases s.len(),
{
    if s.len() == 0 || !entry_lt(s[0], v) {
        0
    } else {
        1 + rank(s.drop_first(), v)
    }
}

/// The sequence with `v` put in at its rank.
pub open spec fn insert_sorted(s: Seq<Entry>, v: Entry) -> Seq<Entry> {
    s.insert(rank(s, v), v)
}

/// The sequence without the entry that equals `v` at its rank, or the sequence
/// itself where no such entry stands there.
pub open spec fn remove_entry(s: Seq<Entry>, v: Entry) -> Seq<Entry> {
    let r = rank(s, v);
    if r < s.len() && s[r] == v {
        s.remove(r)
    } else {
        s
    }
}

/// The rank is an index into the sequence or its length; everything before it is
/// smaller than `v`, and the entry at it is not.
pub proof fn lemma_rank(s: Seq<Entry>, v: Entry)
    ensures
        0 <= rank(s, v) <= s.len(),
        forall|i: int| 0 <= i < rank(s, v) ==> entry_lt(#[trigger] s[i], v),
        rank(s, v) < s.len() ==> !entry_lt(s[rank(s, v)], v),
    decreases s.len(),
{
    if s.len() == 0 || !entry_lt(s[0], v) {
    } else {
        let t = s.drop_first();
        lemma_rank(t, v);
        assert forall|i: int| 0 <= i < rank(s, v) implies entry_lt(#[trigger] s[i], v) by {
            if i > 0 {
                assert(s[i] == t[i - 1]);
            }
        }
        if rank(s, v) < s.len() {
            assert(s[rank(s, v)] == t[rank(t, v)]);
        }
    }
}

/// In an ascending sequence the rank of an entry that occurs is its index.
pub proof fn lemma_rank_of_member(s: Seq<Entry>, k: int)
    requires
        sorted(s),
        0 <= k < s.len(),
    ensures
        rank(s, s[k]) == k,
{
    let v = s[k];
    let r = rank(s, v);
    lemma_rank(s, v);
    lemma_entry_lt_irreflexive(v);
    if r < k {
        assert(entry_lt(s[r], s[k]));
    }
}

/// In an ascending sequence the rank of an entry that does not occur points at
/// the first entry after it.
pub proof fn lemma_rank_of_stranger(s: Seq<Entry>, v: Entry)
    requires
        sorted(s),
        !s.contains(v),
    ensures
        forall|i: int| rank(s, v) <= i < s.len() ==> entry_lt(v, #[trigger] s[i]),
{
    let r = rank(s, v);
    lemma_rank(s, v);
    assert forall|i: int| r <= i < s.len() implies entry_lt(v, #[trigger] s[i]) by {
        assert(s.contains(s[i]));
        lemma_entry_lt_total(v, s[i]);
        if entry_lt(s[i], v) {
            if r < i {
                assert(entry_lt(s[r], s[i]));
                lemma_entry_lt_transitive(s[r], s[i], v);
            }
        }
    }
}

/// Putting an entry in at its rank adds it and nothing else.
pub proof fn lemma_insert_sorted_members(s: Seq<Entry>, v: Entry)
    ensures
        insert_sorted(s, v).len() == s.len() + 1,
        insert_sorted(s, v)[rank(s, v)] == v,
        forall|x: Entry| insert_sorted(s, v).contains(x) <==> (x == v || s.contains(x)),
{
    let r = rank(s, v);
    let t = insert_sorted(s, v);
    lemma_rank(s, v);
    s.insert_ensures(r, v);
    assert forall|x: Entry| t.contains(x) <==> (x == v || s.contains(x)) by {
        if t.contains(x) {
            let i = choose|i: int| 0 <= i < t.len() && t[i] == x;
            if i < r {
                assert(s[i] == x);
            } else if i > r {
                assert(t[(i - 1) + 1] == s[i - 1]);
                assert(s[i - 1] == x);
            }
        }
        if x == v {
            assert(t[r] == x);
        }
        if s.contains(x) {
            let i = choose|i: int| 0 <= i < s.len() && s[i] == x;
            if i < r {
                assert(t[i] == x);
            } else {
                assert(t[i + 1] == x);
            }
        }
    }
}

/// Putting a new entry into an ascending sequence at its rank keeps the
/// sequence ascending.
pub proof fn lemma_insert_sorted_keeps_order(s: Seq<Entry>, v: Entry)
    requires
        sorted(s),
        !s.contains(v),
    ensures
        sorted(insert_sorted(s, v)),
{
    let r = rank(s, v);
    let t = insert_sorted(s, v);
    lemma_rank(s, v);
    lemma_rank_of_stranger(s, v);
    s.insert_ensures(r, v);
    assert forall|i: int, j: int| 0 <= i < j < t.len() implies entry_lt(
        #[trigger] t[i],
        #[trigger] t[j],
    ) by {
        if j < r {
            assert(t[i] == s[i] && t[j] == s[j]);
        } else if j == r {
            assert(t[i] == s[i]);
        } else {
            assert(t[(j - 1) + 1] == s[j - 1]);
            if i < r {
                assert(t[i] == s[i]);
                assert(entry_lt(s[i], v));
                assert(entry_lt(v, s[j - 1]));
                lemma_entry_lt_transitive(s[i], v, s[j - 1]);
            } else if i == r {
                assert(entry_lt(v, s[j - 1]));
            } else {
                assert(t[(i - 1) + 1] == s[i - 1]);
                assert(entry_lt(s[i - 1], s[j - 1]));
            }
        }
    }
}

/// Taking an entry out of an ascending sequence removes it and nothing else,
/// and keeps the sequence ascending.
pub proof fn lemma_remove_entry(s: Seq<Entry>, v: Entry)
    requires
        sorted(s),
    ensures
        sorted(remove_entry(s, v)),
        remove_entry(s, v).len() == if s.contains(v) { s.len() - 1 } else { s.len() as int },
        forall|x: Entry| remove_entry(s, v).contains(x) <==> (x != v && s.contains(x)),
{
    let r = rank(s, v);
    let t = remove_entry(s, v);
    lemma_rank(s, v);
    if s.contains(v) {
        let k = choose|k: int| 0 <= k < s.len() && s[k] == v;
        lemma_rank_of_member(s, k);
        assert(r == k);
        s.remove_ensures(r);
        assert forall|i: int, j: int| 0 <= i < j < t.len() implies entry_lt(
            #[trigger] t[i],
            #[trigger] t[j],
        ) by {
            let si = if i < r { i } else { i + 1 };
            let sj = if j < r { j } else { j + 1 };
            assert(t[i] == s[si] && t[j] == s[sj]);
            assert(entry_lt(s[si], s[sj]));
        }
        assert forall|x: Entry| t.contains(x) <==> (x != v && s.contains(x)) by {
            lemma_entry_lt_irreflexive(v);
            if t.contains(x) {
                let i = choose|i: int| 0 <= i < t.len() && t[i] == x;
                let si = if i < r { i } else { i + 1 };
                assert(t[i] == s[si]);
                if si < r {
                    assert(entry_lt(s[si], s[r]));
                } else {
                    assert(entry_lt(s[r], s[si]));
                }
            }
            if x != v && s.contains(x) {
                let i = choose|i: int| 0 <= i < s.len() && s[i] == x;
                if i < r {
                    assert(t[i] == x);
                } else {
                    assert(t[i - 1] == s[(i - 1) + 1]);
                }
            }
        }
    } else {
        if r < s.len() {
            assert(s.contains(s[r]));
        }
        assert(t == s);
    }
}

/// The rest of an ascending sequence is ascending, and holds what the sequence
/// holds but for its first entry.
pub proof fn lemma_sorted_drop_first(s: Seq<Entry>)
    requires
        sorted(s),
        s.len() > 0,
    ensures
        sorted(s.drop_first()),
        forall|x: Entry| s.drop_first().contains(x) <==> (s.contains(x) && x != s[0]),
{
    let t = s.drop_first();
    assert forall|i: int, j: int| 0 <= i < j < t.len() implies entry_lt(
        #[trigger] t[i],
        #[trigger] t[j],
    ) by {
        assert(entry_lt(s[i + 1], s[j + 1]));
    }
    assert forall|x: Entry| t.contains(x) <==> (s.contains(x) && x != s[0]) by {
        lemma_entry_lt_irreflexive(s[0]);
        if t.contains(x) {
            let i = choose|i: int| 0 <= i < t.len() && t[i] == x;
            assert(s[i + 1] == x);
            assert(entry_lt(s[0], s[i + 1]));
        }
        if s.contains(x) && x != s[0] {
            let i = choose|i: int| 0 <= i < s.len() && s[i] == x;
            assert(t[i - 1] == x);
        }
    }
}

/// Two ascending sequences that hold the same entries are the same sequence.
pub proof fn lemma_sorted_same_members(a: Seq<Entry>, b: Seq<Entry>)
    requires
        sorted(a),
        sorted(b),
        forall|x: Entry| a.contains(x) <==> b.contains(x),
    ensures
        a == b,
    decreases a.len(),
{
    if a.len() == 0 {
        if b.len() > 0 {
            assert(b.contains(b[0]));
        }
        assert(a =~= b);
    } else {
        assert(a.contains(a[0]));
        assert(b.contains(a[0]));
        assert(b.contains(b[0]));
        assert(a.contains(b[0]));
        let i = choose|i: int| 0 <= i < a.len() && a[i] == b[0];
        let j = choose|j: int| 0 <= j < b.len() && b[j] == a[0];
        if i > 0 && j > 0 {
            assert(entry_lt(a[0], a[i]));
            assert(entry_lt(b[0], b[j]));
            lemma_entry_lt_asymmetric(a[0], b[0]);
        }
        assert(a[0] == b[0]);
        lemma_sorted_drop_first(a);
        lemma_sorted_drop_first(b);
        assert forall|x: Entry| a.drop_first().contains(x) <==> b.drop_first().contains(x) by {
            assert(a.contains(x) <==> b.contains(x));
        }
        lemma_sorted_same_members(a.drop_first(), b.drop_first());
        assert(a =~= seq![a[0]] + a.drop_first());
        assert(b =~= seq![b[0]] + b.drop_first());
    }
}

} // verus!
