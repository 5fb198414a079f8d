//! Delta reconciliation: compares the symbol lists of two snapshots and emits
//! Added / Modified / Deleted / Renamed records, detecting renames by
//! structural-hash matching.

use vstd::prelude::*;

use crate::models::{DeltaKind, SemanticDelta, SemanticSymbol};

verus! {

/// The part of a symbol that the differ reads: its canonical key and its
/// structural hash.
pub struct SymKey {
    pub name: Seq<char>,
    pub hash: Seq<char>,
}

/// The part of a delta record that the reconciliation algorithm determines.
pub struct RecKey {
    pub kind: DeltaKind,
    pub name: Seq<char>,
    pub new_name: Option<Seq<char>>,
    pub hash: Seq<char>,
}

pub open spec fn sym_key(s: SemanticSymbol) -> SymKey {
    SymKey { name: s.name@, hash: s.structural_hash@ }
}

/// The key projection of a whole symbol list.
pub open spec fn keys_of(syms: Seq<SemanticSymbol>) -> Seq<SymKey> {
    syms.map_values(|s: SemanticSymbol| sym_key(s))
}

/// The key projection of a whole record list.
pub open spec fn rec_keys_of(recs: Seq<SemanticDelta>) -> Seq<RecKey> {
    recs.map_values(|d: SemanticDelta| rec_key(d))
}

pub open spec fn rec_key(d: SemanticDelta) -> RecKey {
    RecKey {
        kind: d.kind,
        name: d.symbol_name@,
        new_name: match d.new_name {
            Some(n) => Some(n@),
            None => None,
        },
        hash: d.structural_hash@,
    }
}

/// The symbol a name-keyed map built from `prev` resolves to: the last
/// occurrence of `name` wins, as insertion into a map overwrites.
pub open spec fn find_last(prev: Seq<SymKey>, name: Seq<char>) -> Option<SymKey>
    decreases prev.len(),
{
    if prev.len() == 0 {
        None
    } else if prev.last().name == name {
        Some(prev.last())
    } else {
        find_last(prev.drop_last(), name)
    }
}

pub open spec fn has_name(syms: Seq<SymKey>, name: Seq<char>) -> bool {
    exists|i: int| 0 <= i < syms.len() && syms[i].name == name
}

pub open spec fn modified_rec(c: SymKey) -> RecKey {
    RecKey { kind: DeltaKind::Modified, name: c.name, new_name: None, hash: c.hash }
}

pub open spec fn added_rec(c: SymKey) -> RecKey {
    RecKey { kind: DeltaKind::Added, name: c.name, new_name: None, hash: c.hash }
}

pub open spec fn deleted_rec(p: SymKey) -> RecKey {
    RecKey { kind: DeltaKind::Deleted, name: p.name, new_name: None, hash: p.hash }
}

/// The forward pass: walks `curr` in order; a symbol whose name is absent
/// from `prev` yields `Added`, one present with a different hash yields
/// `Modified`, and an unchanged pair yields nothing.
pub open spec fn forward_recs(prev: Seq<SymKey>, curr: Seq<SymKey>) -> Seq<RecKey>
    decreases curr.len(),
{
    if curr.len() == 0 {
        Seq::empty()
    } else {
        let rest = forward_recs(prev, curr.drop_last());
        let c = curr.last();
        match find_last(prev, c.name) {
            Some(p) => if p.hash != c.hash {
                rest.push(modified_rec(c))
            } else {
                rest
            },
            None => rest.push(added_rec(c)),
        }
    }
}

/// The first still-tentative `Added` record at or after `j` whose hash is
/// `hash`; the rename pass promotes this one.
pub open spec fn first_added_from(recs: Seq<RecKey>, hash: Seq<char>, j: int) -> Option<int>
    decreases recs.len() - j,
{
    if j < 0 || j >= recs.len() {
        None
    } else if recs[j].kind == DeltaKind::Added && recs[j].hash == hash {
        Some(j)
    } else {
        first_added_from(recs, hash, j + 1)
    }
}

/// Converting an `Added` record in place into a `Renamed` one: the old name
/// becomes the key, the added name moves to `new_name`, the hash stays.
pub open spec fn promote(recs: Seq<RecKey>, j: int, prev_name: Seq<char>) -> Seq<RecKey> {
    recs.update(
        j,
        RecKey {
            kind: DeltaKind::Renamed,
            name: prev_name,
            new_name: Some(recs[j].name),
            hash: recs[j].hash,
        },
    )
}

/// The reverse pass from position `i` on: each `prev` symbol whose name is
/// absent from `curr` either promotes the first matching `Added` record to
/// `Renamed` or appends `Deleted`.
pub open spec fn reverse_recs(
    prev: Seq<SymKey>,
    curr: Seq<SymKey>,
    recs: Seq<RecKey>,
    i: int,
) -> Seq<RecKey>
    decreases prev.len() - i,
{
    if i < 0 || i >= prev.len() {
        recs
    } else {
        let p = prev[i];
        let recs2 = if has_name(curr, p.name) {
            recs
        } else {
            match first_added_from(recs, p.hash, 0) {
                Some(j) => promote(recs, j, p.name),
                None => recs.push(deleted_rec(p)),
            }
        };
        reverse_recs(prev, curr, recs2, i + 1)
    }
}

/// The record list `compare` produces, as a function of the two symbol lists.
pub open spec fn diff_model(prev: Seq<SymKey>, curr: Seq<SymKey>) -> Seq<RecKey> {
    reverse_recs(prev, curr, forward_recs(prev, curr), 0)
}

/// Whether some symbol in `syms` carries exactly this name and hash.
pub open spec fn sym_in(syms: Seq<SymKey>, name: Seq<char>, hash: Seq<char>) -> bool {
    exists|i: int| 0 <= i < syms.len() && syms[i].name == name && syms[i].hash == hash
}

/// Soundness of one record: each kind is witnessed by the right side(s).
/// `Added` and `Modified` point at a `curr` symbol (absent from, respectively
/// present in, `prev`); `Deleted` points at a `prev` symbol absent from
/// `curr`; `Renamed` has a witness on both sides with the same hash.
pub open spec fn rec_sound(prev: Seq<SymKey>, curr: Seq<SymKey>, r: RecKey) -> bool {
    match r.kind {
        DeltaKind::Added => r.new_name is None && sym_in(curr, r.name, r.hash) && !has_name(
            prev,
            r.name,
        ),
        DeltaKind::Modified => r.new_name is None && sym_in(curr, r.name, r.hash) && match find_last(
            prev,
            r.name,
        ) {
            Some(p) => p.hash != r.hash,
            None => false,
        },
        DeltaKind::Deleted => r.new_name is None && sym_in(prev, r.name, r.hash) && !has_name(
            curr,
            r.name,
        ),
        DeltaKind::Renamed => match r.new_name {
            Some(m) => sym_in(prev, r.name, r.hash) && sym_in(curr, m, r.hash) && !has_name(
                curr,
                r.name,
            ) && !has_name(prev, m),
            None => false,
        },
    }
}

/// `find_last` returns an element of the list with the sought name, and
/// `None` exactly when no element has it.
proof fn lemma_find_last_props(prev: Seq<SymKey>, name: Seq<char>)
    ensures
        match find_last(prev, name) {
            Some(p) => exists|i: int| 0 <= i < prev.len() && prev[i] == p && p.name == name,
            None => !has_name(prev, name),
        },
    decreases prev.len(),
{
    if prev.len() == 0 {
    } else if prev.last().name == name {
        assert(prev[prev.len() - 1] == prev.last());
    } else {
        lemma_find_last_props(prev.drop_last(), name);
        match find_last(prev.drop_last(), name) {
            Some(p) => {
                let i = choose|i: int|
                    0 <= i < prev.drop_last().len() && prev.drop_last()[i] == p && p.name == name;
                assert(prev[i] == p);
            },
            None => {
                assert forall|i: int| 0 <= i < prev.len() implies prev[i].name != name by {
                    if i < prev.len() - 1 {
                        assert(prev.drop_last()[i] == prev[i]);
                    }
                }
            },
        }
    }
}

/// Every record the forward pass emits is `Added` or `Modified`, carries no
/// `new_name`, and is sound.
proof fn lemma_forward_sound(prev: Seq<SymKey>, curr: Seq<SymKey>)
    ensures
        forall|k: int| 0 <= k < forward_recs(prev, curr).len() ==> {
            let r = #[trigger] forward_recs(prev, curr)[k];
            &&& (r.kind == DeltaKind::Added || r.kind == DeltaKind::Modified)
            &&& r.new_name is None
            &&& rec_sound(prev, curr, r)
        },
    decreases curr.len(),
{
    if curr.len() == 0 {
    } else {
        lemma_forward_sound(prev, curr.drop_last());
        let rest = forward_recs(prev, curr.drop_last());
        let c = curr.last();
        assert(curr[curr.len() - 1] == c);
        // Soundness carries over from the shorter current list: `sym_in` and
        // `has_name` over `curr` only gain witnesses, and `Added`/`Modified`
        // facts about `prev` are untouched.
        assert forall|k: int| 0 <= k < rest.len() implies rec_sound(prev, curr, rest[k]) by {
            assert(rec_sound(prev, curr.drop_last(), rest[k]));
            assert forall|n: Seq<char>, h: Seq<char>| sym_in(curr.drop_last(), n, h) implies sym_in(
                curr,
                n,
                h,
            ) by {
                let i = choose|i: int|
                    0 <= i < curr.drop_last().len() && curr.drop_last()[i].name == n
                        && curr.drop_last()[i].hash == h;
                assert(curr[i].name == n && curr[i].hash == h);
            }
        }
        lemma_find_last_props(prev, c.name);
    }
}

/// Promoting or appending in the reverse pass keeps every record sound, so
/// the full reverse pass does.
proof fn lemma_reverse_sound(prev: Seq<SymKey>, curr: Seq<SymKey>, recs: Seq<RecKey>, i: int)
    requires
        forall|k: int| 0 <= k < recs.len() ==> rec_sound(prev, curr, #[trigger] recs[k]),
    ensures
        forall|k: int| 0 <= k < reverse_recs(prev, curr, recs, i).len() ==> rec_sound(
            prev,
            curr,
            #[trigger] reverse_recs(prev, curr, recs, i)[k],
        ),
    decreases prev.len() - i,
{
    if i < 0 || i >= prev.len() {
        assert(reverse_recs(prev, curr, recs, i) == recs);
    } else {
        let p = prev[i];
        if has_name(curr, p.name) {
            lemma_reverse_sound(prev, curr, recs, i + 1);
            assert(reverse_recs(prev, curr, recs, i) == reverse_recs(prev, curr, recs, i + 1));
        } else {
            match first_added_from(recs, p.hash, 0) {
                Some(j) => {
                    lemma_first_added_from_found(recs, p.hash, 0, j);
                    let recs2 = promote(recs, j, p.name);
                    assert(sym_in(prev, p.name, p.hash));
                    assert(rec_sound(prev, curr, recs[j]));
                    assert(rec_sound(prev, curr, recs2[j]));
                    assert forall|k: int| 0 <= k < recs2.len() implies rec_sound(
                        prev,
                        curr,
                        #[trigger] recs2[k],
                    ) by {
                        if k != j {
                            assert(recs2[k] == recs[k]);
                        }
                    }
                    lemma_reverse_sound(prev, curr, recs2, i + 1);
                    assert(reverse_recs(prev, curr, recs, i) == reverse_recs(
                        prev,
                        curr,
                        recs2,
                        i + 1,
                    ));
                },
                None => {
                    let recs2 = recs.push(deleted_rec(p));
                    assert(sym_in(prev, p.name, p.hash));
                    assert forall|k: int| 0 <= k < recs2.len() implies rec_sound(
                        prev,
                        curr,
                        #[trigger] recs2[k],
                    ) by {
                        if k < recs.len() {
                            assert(recs2[k] == recs[k]);
                        } else {
                            assert(recs2[k] == deleted_rec(p));
                        }
                    }
                    lemma_reverse_sound(prev, curr, recs2, i + 1);
                    assert(reverse_recs(prev, curr, recs, i) == reverse_recs(
                        prev,
                        curr,
                        recs2,
                        i + 1,
                    ));
                },
            }
        }
    }
}

/// Diff soundness: every record the differ emits is witnessed by the right
/// side or sides. An `Added`, `Modified` or `Deleted` record names a symbol
/// of exactly one list, and a `Renamed` record names a `prev` symbol and a
/// `curr` symbol whose structural hashes agree.
pub proof fn lemma_diff_soundness(prev: Seq<SymKey>, curr: Seq<SymKey>)
    ensures
        forall|k: int| 0 <= k < diff_model(prev, curr).len() ==> rec_sound(
            prev,
            curr,
            #[trigger] diff_model(prev, curr)[k],
        ),
{
    lemma_forward_sound(prev, curr);
    lemma_reverse_sound(prev, curr, forward_recs(prev, curr), 0);
}

/// Whether the record list mentions `name`, as a record key or as the new
/// name of a rename.
pub open spec fn references(recs: Seq<RecKey>, name: Seq<char>) -> bool {
    exists|k: int|
        0 <= k < recs.len() && ((#[trigger] recs[k]).name == name || recs[k].new_name == Some(
            name,
        ))
}

/// No tentative `Added` record carries a new name; promotion relies on this.
pub open spec fn added_plain(recs: Seq<RecKey>) -> bool {
    forall|k: int| 0 <= k < recs.len() && (#[trigger] recs[k]).kind == DeltaKind::Added
        ==> recs[k].new_name is None
}

proof fn lemma_forward_complete(prev: Seq<SymKey>, curr: Seq<SymKey>)
    ensures
        added_plain(forward_recs(prev, curr)),
        forall|j: int| 0 <= j < curr.len() ==> references(
            forward_recs(prev, curr),
            (#[trigger] curr[j]).name,
        ) || sym_in(prev, curr[j].name, curr[j].hash),
    decreases curr.len(),
{
    lemma_forward_sound(prev, curr);
    if curr.len() == 0 {
    } else {
        lemma_forward_complete(prev, curr.drop_last());
        let rest = forward_recs(prev, curr.drop_last());
        let fw = forward_recs(prev, curr);
        let c = curr.last();
        lemma_find_last_props(prev, c.name);
        assert forall|j: int| 0 <= j < curr.len() implies references(fw, (#[trigger] curr[j]).name)
            || sym_in(prev, curr[j].name, curr[j].hash) by {
            if j < curr.len() - 1 {
                assert(curr.drop_last()[j] == curr[j]);
                if references(rest, curr[j].name) {
                    let k = choose|k: int|
                        0 <= k < rest.len() && (#[trigger] rest[k]).name == curr[j].name
                            || 0 <= k < rest.len() && rest[k].new_name == Some(curr[j].name);
                    assert(fw[k] == rest[k]);
                }
            } else {
                match find_last(prev, c.name) {
                    Some(p) => {
                        if p.hash != c.hash {
                            assert(fw[fw.len() - 1] == modified_rec(c));
                        } else {
                            let i = choose|i: int|
                                0 <= i < prev.len() && prev[i] == p && p.name == c.name;
                            assert(sym_in(prev, c.name, c.hash));
                        }
                    },
                    None => {
                        assert(fw[fw.len() - 1] == added_rec(c));
                    },
                }
            }
        }
    }
}

/// The reverse pass never loses a mentioned name, keeps `Added` records
/// plain, and mentions the name of every `prev` symbol (from `i` on) that is
/// absent from `curr`.
proof fn lemma_reverse_complete(
    prev: Seq<SymKey>,
    curr: Seq<SymKey>,
    recs: Seq<RecKey>,
    i: int,
    name: Seq<char>,
)
    requires
        0 <= i,
        added_plain(recs),
    ensures
        references(recs, name) ==> references(reverse_recs(prev, curr, recs, i), name),
        (exists|j: int|
            i <= j < prev.len() && (#[trigger] prev[j]).name == name && !has_name(curr, name))
            ==> references(reverse_recs(prev, curr, recs, i), name),
    decreases prev.len() - i,
{
    if i >= prev.len() {
        assert(reverse_recs(prev, curr, recs, i) == recs);
    } else {
        let p = prev[i];
        let recs2 = if has_name(curr, p.name) {
            recs
        } else {
            match first_added_from(recs, p.hash, 0) {
                Some(j) => promote(recs, j, p.name),
                None => recs.push(deleted_rec(p)),
            }
        };
        // recs2 keeps every mentioned name, stays plain, and mentions p.name
        // when p is unmatched.
        assert(added_plain(recs2) && (references(recs, name) ==> references(recs2, name)) && (
        !has_name(curr, p.name) && p.name == name ==> references(recs2, name))) by {
            if !has_name(curr, p.name) {
                match first_added_from(recs, p.hash, 0) {
                    Some(j) => {
                        lemma_first_added_from_found(recs, p.hash, 0, j);
                        assert(recs[j].new_name is None);
                        assert(recs2[j].name == p.name && recs2[j].new_name == Some(recs[j].name));
                        assert forall|k: int|
                            0 <= k < recs2.len() && (#[trigger] recs2[k]).kind == DeltaKind::Added
                            implies recs2[k].new_name is None by {
                            if k != j {
                                assert(recs2[k] == recs[k]);
                            }
                        }
                        if references(recs, name) {
                            let k = choose|k: int|
                                0 <= k < recs.len() && ((#[trigger] recs[k]).name == name
                                    || recs[k].new_name == Some(name));
                            if k != j {
                                assert(recs2[k] == recs[k]);
                            } else {
                                assert(recs[j].name == name);
                                assert(recs2[j].new_name == Some(name));
                            }
                        }
                    },
                    None => {
                        assert(recs2[recs.len() as int] == deleted_rec(p));
                        assert forall|k: int|
                            0 <= k < recs2.len() && (#[trigger] recs2[k]).kind == DeltaKind::Added
                            implies recs2[k].new_name is None by {
                            if k < recs.len() {
                                assert(recs2[k] == recs[k]);
                            }
                        }
                        if references(recs, name) {
                            let k = choose|k: int|
                                0 <= k < recs.len() && ((#[trigger] recs[k]).name == name
                                    || recs[k].new_name == Some(name));
                            assert(recs2[k] == recs[k]);
                        }
                    },
                }
            }
        }
        lemma_reverse_complete(prev, curr, recs2, i + 1, name);
        assert(reverse_recs(prev, curr, recs, i) == reverse_recs(prev, curr, recs2, i + 1));
        if exists|j: int|
            i <= j < prev.len() && (#[trigger] prev[j]).name == name && !has_name(curr, name) {
            let j = choose|j: int|
                i <= j < prev.len() && (#[trigger] prev[j]).name == name && !has_name(curr, name);
            if j == i {
                assert(references(recs2, name));
                assert(references(reverse_recs(prev, curr, recs2, i + 1), name));
            } else {
                assert(exists|j2: int|
                    i + 1 <= j2 < prev.len() && (#[trigger] prev[j2]).name == name && !has_name(
                        curr,
                        name,
                    )) by {
                    assert(i + 1 <= j < prev.len() && prev[j].name == name && !has_name(
                        curr,
                        name,
                    ));
                }
                assert(references(reverse_recs(prev, curr, recs2, i + 1), name));
            }
            assert(references(reverse_recs(prev, curr, recs, i), name));
        }
    }
}

/// Diff completeness: every name present in either snapshot is mentioned by
/// some record (as its key or as a rename's new name), unless the name is
/// unchanged: present on both sides with the same structural hash.
pub proof fn lemma_diff_completeness(prev: Seq<SymKey>, curr: Seq<SymKey>, name: Seq<char>)
    requires
        has_name(prev, name) || has_name(curr, name),
    ensures
        references(diff_model(prev, curr), name) || (exists|i: int, j: int|
            0 <= i < prev.len() && 0 <= j < curr.len() && prev[i].name == name && curr[j].name
                == name && prev[i].hash == curr[j].hash),
{
    let fw = forward_recs(prev, curr);
    lemma_forward_complete(prev, curr);
    lemma_reverse_complete(prev, curr, fw, 0, name);
    if has_name(curr, name) {
        let j = choose|j: int| 0 <= j < curr.len() && curr[j].name == name;
        assert(references(fw, curr[j].name) || sym_in(prev, curr[j].name, curr[j].hash));
        if sym_in(prev, curr[j].name, curr[j].hash) {
            let i = choose|i: int|
                0 <= i < prev.len() && prev[i].name == name && prev[i].hash == curr[j].hash;
            assert(prev[i].name == name && curr[j].name == name && prev[i].hash == curr[j].hash);
        }
    } else {
        let i = choose|i: int| 0 <= i < prev.len() && prev[i].name == name;
        assert(i <= i < prev.len() && prev[i].name == name && !has_name(curr, name));
    }
}

/// The record `first_added_from` points at is a tentative `Added` one with
/// the sought hash.
proof fn lemma_first_added_from_found(recs: Seq<RecKey>, hash: Seq<char>, j: int, r: int)
    requires
        first_added_from(recs, hash, j) == Some(r),
    ensures
        j <= r < recs.len(),
        recs[r].kind == DeltaKind::Added,
        recs[r].hash == hash,
    decreases recs.len() - j,
{
    if j < 0 || j >= recs.len() {
    } else if recs[j].kind == DeltaKind::Added && recs[j].hash == hash {
    } else {
        lemma_first_added_from_found(recs, hash, j + 1, r);
    }
}

pub struct SemanticDiffer;

impl SemanticDiffer {
    /// The index of the last symbol named `name`, mirroring a name-keyed map
    /// in which later insertions overwrite earlier ones.
    fn find_last_index(syms: &Vec<SemanticSymbol>, name: &String) -> (r: Option<usize>)
        ensures
            match r {
                Some(i) => i < syms@.len() && find_last(keys_of(syms@), name@)
                    == Some(sym_key(syms@[i as int])),
                None => find_last(keys_of(syms@), name@) is None,
            },
    {
        let ghost m = keys_of(syms@);
        proof {
            assert(m.take(syms@.len() as int) =~= m);
        }
        let mut i: usize = syms.len();
        while i > 0
            invariant
                i <= syms@.len(),
                m == keys_of(syms@),
                find_last(m, name@) == find_last(m.take(i as int), name@),
            decreases i,
        {
            let cand = &syms[i - 1];
            proof {
                assert(m.take(i as int).drop_last() =~= m.take(i - 1));
                assert(m.take(i as int).last() == sym_key(syms@[i - 1]));
            }
            if cand.name == *name {
                return Some(i - 1);
            }
            i = i - 1;
        }
        proof {
            assert(m.take(0) =~= Seq::<SymKey>::empty());
        }
        None
    }

    /// Whether some symbol in `syms` is named `name`.
    fn any_has_name(syms: &Vec<SemanticSymbol>, name: &String) -> (r: bool)
        ensures
            r == has_name(keys_of(syms@), name@),
    {
        let ghost m = keys_of(syms@);
        let mut i: usize = 0;
        while i < syms.len()
            invariant
                i <= syms@.len(),
                m == keys_of(syms@),
                forall|k: int| 0 <= k < i ==> m[k].name != name@,
            decreases syms@.len() - i,
        {
            if syms[i].name == *name {
                assert(m[i as int].name == name@);
                return true;
            }
            i = i + 1;
        }
        false
    }

    /// Compares the symbols of two snapshots and emits one delta per changed
    /// symbol: `Modified` and `Added` in `curr` order, then `Deleted` in
    /// `prev` order, with rename promotions rewriting `Added` entries in
    /// place. The result is exactly `diff_model` over the two lists' keys,
    /// and every record carries the given snapshot ids.
    pub fn compare(
        prev_symbols: &Vec<SemanticSymbol>,
        curr_symbols: &Vec<SemanticSymbol>,
        from_snapshot_id: Option<i64>,
        to_snapshot_id: i64,
    ) -> (records: Vec<SemanticDelta>)
        ensures
            rec_keys_of(records@) == diff_model(keys_of(prev_symbols@), keys_of(curr_symbols@)),
            forall|k: int| 0 <= k < records@.len() ==> {
                &&& (#[trigger] records@[k]).to_snapshot_id == to_snapshot_id
                &&& records@[k].from_snapshot_id == from_snapshot_id
                &&& records@[k].id == 0i64
                &&& records@[k].project_id is None
            },
    {
        let ghost pm = keys_of(prev_symbols@);
        let ghost cm = keys_of(curr_symbols@);

        let mut records: Vec<SemanticDelta> = Vec::new();

        // Forward pass: Modified and Added, in `curr` order.
        let mut ci: usize = 0;
        while ci < curr_symbols.len()
            invariant
                ci <= curr_symbols@.len(),
                pm == keys_of(prev_symbols@),
                cm == keys_of(curr_symbols@),
                rec_keys_of(records@) == forward_recs(pm, cm.take(ci as int)),
                forall|k: int| 0 <= k < records@.len() ==> {
                    &&& (#[trigger] records@[k]).to_snapshot_id == to_snapshot_id
                    &&& records@[k].from_snapshot_id == from_snapshot_id
                    &&& records@[k].id == 0i64
                    &&& records@[k].project_id is None
                },
            decreases curr_symbols@.len() - ci,
        {
            let curr = &curr_symbols[ci];
            proof {
                assert(cm.take(ci + 1).drop_last() =~= cm.take(ci as int));
                assert(cm.take(ci + 1).last() == sym_key(curr_symbols@[ci as int]));
            }
            match Self::find_last_index(prev_symbols, &curr.name) {
                Some(fi) => {
                    let matched = &prev_symbols[fi];
                    if matched.structural_hash != curr.structural_hash {
                        let rec = SemanticDelta {
                            id: 0,
                            project_id: None,
                            from_snapshot_id,
                            to_snapshot_id,
                            symbol_name: curr.name.clone(),
                            new_name: None,
                            kind: DeltaKind::Modified,
                            structural_hash: curr.structural_hash.clone(),
                        };
                        assert(rec_key(rec) == modified_rec(sym_key(curr_symbols@[ci as int])));
                        records.push(rec);
                        proof {
                            assert(rec_keys_of(records@) =~= forward_recs(pm, cm.take(ci + 1)));
                        }
                    } else {
                        assert(forward_recs(pm, cm.take(ci + 1)) == forward_recs(
                            pm,
                            cm.take(ci as int),
                        ));
                    }
                },
                None => {
                    let rec = SemanticDelta {
                        id: 0,
                        project_id: None,
                        from_snapshot_id,
                        to_snapshot_id,
                        symbol_name: curr.name.clone(),
                        new_name: None,
                        kind: DeltaKind::Added,
                        structural_hash: curr.structural_hash.clone(),
                    };
                    assert(rec_key(rec) == added_rec(sym_key(curr_symbols@[ci as int])));
                    records.push(rec);
                    proof {
                        assert(rec_keys_of(records@) =~= forward_recs(pm, cm.take(ci + 1)));
                    }
                },
            }
            ci = ci + 1;
        }
        proof {
            assert(cm.take(cm.len() as int) =~= cm);
        }

        // Reverse pass: Deleted and rename promotion, in `prev` order.
        let mut pi: usize = 0;
        while pi < prev_symbols.len()
            invariant
                pi <= prev_symbols@.len(),
                pm == keys_of(prev_symbols@),
                cm == keys_of(curr_symbols@),
                reverse_recs(pm, cm, rec_keys_of(records@), pi as int) == diff_model(pm, cm),
                forall|k: int| 0 <= k < records@.len() ==> {
                    &&& (#[trigger] records@[k]).to_snapshot_id == to_snapshot_id
                    &&& records@[k].from_snapshot_id == from_snapshot_id
                    &&& records@[k].id == 0i64
                    &&& records@[k].project_id is None
                },
            decreases prev_symbols@.len() - pi,
        {
            let unmatched = &prev_symbols[pi];
            let ghost recs_before = rec_keys_of(records@);
            proof {
                assert(pm[pi as int] == sym_key(prev_symbols@[pi as int]));
            }
            if !Self::any_has_name(curr_symbols, &unmatched.name) {
                // Rename detection: find the first tentative Added record
                // carrying this structural hash, then promote it in place.
                let mut j: usize = 0;
                let mut hit = false;
                while j < records.len() && !hit
                    invariant
                        j <= records@.len(),
                        recs_before == rec_keys_of(records@),
                        pi < prev_symbols@.len(),
                        pm == keys_of(prev_symbols@),
                        unmatched == &prev_symbols@[pi as int],
                        !hit ==> first_added_from(recs_before, pm[pi as int].hash, 0)
                            == first_added_from(recs_before, pm[pi as int].hash, j as int),
                        hit ==> 1 <= j && first_added_from(recs_before, pm[pi as int].hash, 0)
                            == Some(j - 1),
                    decreases records@.len() - j + (if hit { 0int } else { 1int }),
                {
                    let is_added = match records[j].kind {
                        DeltaKind::Added => true,
                        _ => false,
                    };
                    proof {
                        assert(recs_before[j as int] == rec_key(records@[j as int]));
                    }
                    if is_added && records[j].structural_hash == unmatched.structural_hash {
                        hit = true;
                    }
                    j = j + 1;
                }
                if hit {
                    let idx = j - 1;
                    proof {
                        lemma_first_added_from_found(recs_before, pm[pi as int].hash, 0, idx as int);
                    }
                    let rec = SemanticDelta {
                        id: 0,
                        project_id: None,
                        from_snapshot_id,
                        to_snapshot_id,
                        symbol_name: unmatched.name.clone(),
                        new_name: Some(records[idx].symbol_name.clone()),
                        kind: DeltaKind::Renamed,
                        structural_hash: records[idx].structural_hash.clone(),
                    };
                    records[idx] = rec;
                    proof {
                        assert(rec_keys_of(records@) =~= promote(
                            recs_before,
                            idx as int,
                            pm[pi as int].name,
                        ));
                    }
                } else {
                    let rec = SemanticDelta {
                        id: 0,
                        project_id: None,
                        from_snapshot_id,
                        to_snapshot_id,
                        symbol_name: unmatched.name.clone(),
                        new_name: None,
                        kind: DeltaKind::Deleted,
                        structural_hash: unmatched.structural_hash.clone(),
                    };
                    assert(rec_key(rec) == deleted_rec(pm[pi as int]));
                    records.push(rec);
                    proof {
                        assert(rec_keys_of(records@) =~= recs_before.push(deleted_rec(
                            pm[pi as int],
                        )));
                    }
                }
            }
            proof {
                assert(reverse_recs(pm, cm, recs_before, pi as int) == reverse_recs(
                    pm,
                    cm,
                    rec_keys_of(records@),
                    pi as int + 1,
                ));
            }
            pi = pi + 1;
        }
        records
    }
}

} // verus!
