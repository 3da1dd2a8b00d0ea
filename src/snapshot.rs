//! A compact text snapshot of a state, for reading while debugging: the
//! value of each register, each memory object, and the stack identities.
use vstd::prelude::*;
use crate::data::{AbstractIdentifier, Data, IdSet, IdView, Interval};
use crate::object::{AbstractObject, ObjectState, ObjectType};
use crate::state::State;

verus! {

pub open spec fn digit_char(d: nat) -> char {
    if d == 0 {
        '0'
    } else if d == 1 {
        '1'
    } else if d == 2 {
        '2'
    } else if d == 3 {
        '3'
    } else if d == 4 {
        '4'
    } else if d == 5 {
        '5'
    } else if d == 6 {
        '6'
    } else if d == 7 {
        '7'
    } else if d == 8 {
        '8'
    } else {
        '9'
    }
}

/// The decimal digits of `n`.
pub open spec fn nat_text(n: nat) -> Seq<char>
    decreases n,
{
    if n < 10 {
        seq![digit_char(n)]
    } else {
        nat_text(n / 10).push(digit_char(n % 10))
    }
}

/// `v` in decimal, with a leading `-` where it is negative.
pub open spec fn int_text(v: int) -> Seq<char> {
    if v < 0 {
        "-"@ + nat_text((0 - v) as nat)
    } else {
        nat_text(v as nat)
    }
}

/// A single value, or `[start, end]`.
pub open spec fn interval_text(i: Interval) -> Seq<char> {
    if i.start == i.end {
        int_text(i.start as int)
    } else {
        "["@ + int_text(i.start as int) + ", "@ + int_text(i.end as int) + "]"@
    }
}

/// `->offset` for each dereference of a location.
pub open spec fn offsets_text(o: Seq<i64>) -> Seq<char>
    decreases o.len(),
{
    if o.len() == 0 {
        seq![]
    } else {
        offsets_text(o.drop_last()) + "->"@ + int_text(o.last() as int)
    }
}

/// The term and the location of an identifier: `term @ register->offset...`.
pub open spec fn id_text(id: IdView) -> Seq<char> {
    id.0.0 + " @ "@ + id.1.0.0 + offsets_text(id.1.1)
}

pub open spec fn target_text(t: (AbstractIdentifier, Interval)) -> Seq<char> {
    id_text(t.0@) + ": "@ + interval_text(t.1)
}

/// The targets of a pointer, in order, separated by `, `.
pub open spec fn targets_text(e: Seq<(AbstractIdentifier, Interval)>) -> Seq<char>
    decreases e.len(),
{
    if e.len() == 0 {
        seq![]
    } else if e.len() == 1 {
        target_text(e[0])
    } else {
        targets_text(e.drop_last()) + ", "@ + target_text(e.last())
    }
}

/// `Top:size`, the interval of a number, or `{target: offsets, ...}`.
pub open spec fn data_text(d: Data) -> Seq<char> {
    match d {
        Data::Top(size) => "Top:"@ + nat_text(size as nat),
        Data::Value(_, i) => interval_text(i),
        Data::Pointer(_, t) => "{"@ + targets_text(t.entries@) + "}"@,
    }
}

pub open spec fn cell_text(c: (i64, Data)) -> Seq<char> {
    int_text(c.0 as int) + ": "@ + data_text(c.1)
}

/// The known cells of an object, in order, separated by `, `.
pub open spec fn content_text(e: Seq<(i64, Data)>) -> Seq<char>
    decreases e.len(),
{
    if e.len() == 0 {
        seq![]
    } else if e.len() == 1 {
        cell_text(e[0])
    } else {
        content_text(e.drop_last()) + ", "@ + cell_text(e.last())
    }
}

pub open spec fn object_type_text(t: ObjectType) -> Seq<char> {
    match t {
        ObjectType::Stack => "Stack"@,
        ObjectType::Heap => "Heap"@,
        ObjectType::Param => "Param"@,
    }
}

pub open spec fn object_state_text(s: ObjectState) -> Seq<char> {
    match s {
        ObjectState::Live => "Live"@,
        ObjectState::Freed => "Freed"@,
        ObjectState::Unknown => "Unknown"@,
    }
}

/// `kind status size {offset: value, ...}`.
pub open spec fn object_text(o: AbstractObject) -> Seq<char> {
    object_type_text(o.object_type) + " "@ + object_state_text(o.state) + " "@ + nat_text(
        o.size as nat,
    ) + " {"@ + content_text(o.content.entries@) + "}"@
}

/// The text form of a state.
#[derive(Debug, PartialEq)]
pub struct Snapshot {
    /// Each register with a known value: its name and the value.
    pub register: Vec<(String, String)>,
    /// Each memory object: its identifier and the object.
    pub memory: Vec<(String, String)>,
    pub stack_id: String,
    /// The callers' stack frames, in ascending order of their text.
    pub caller_stack_ids: Vec<String>,
    /// The objects known to callers, in ascending order of their text.
    pub ids_known_to_caller: Vec<String>,
}

fn digit_str(d: u64) -> (r: &'static str)
    requires
        d < 10,
    ensures
        r@ == seq![digit_char(d as nat)],
{
    proof {
        reveal_strlit("0");
        reveal_strlit("1");
        reveal_strlit("2");
        reveal_strlit("3");
        reveal_strlit("4");
        reveal_strlit("5");
        reveal_strlit("6");
        reveal_strlit("7");
        reveal_strlit("8");
        reveal_strlit("9");
    }
    if d == 0 {
        "0"
    } else if d == 1 {
        "1"
    } else if d == 2 {
        "2"
    } else if d == 3 {
        "3"
    } else if d == 4 {
        "4"
    } else if d == 5 {
        "5"
    } else if d == 6 {
        "6"
    } else if d == 7 {
        "7"
    } else if d == 8 {
        "8"
    } else {
        "9"
    }
}

fn push_nat(s: &mut String, n: u64)
    ensures
        final(s)@ == old(s)@ + nat_text(n as nat),
    decreases n,
{
    if n >= 10 {
        push_nat(s, n / 10);
    }
    s.append(digit_str(n % 10));
    proof {
        if n >= 10 {
            assert(final(s)@ =~= old(s)@ + nat_text(n as nat));
        } else {
            assert(final(s)@ =~= old(s)@ + nat_text(n as nat));
        }
    }
}

fn push_int(s: &mut String, v: i64)
    ensures
        final(s)@ == old(s)@ + int_text(v as int),
{
    if v < 0 {
        s.append("-");
        let magnitude: u64 = (0 - (v as i128)) as u64;
        push_nat(s, magnitude);
        assert(final(s)@ =~= old(s)@ + int_text(v as int));
    } else {
        push_nat(s, v as u64);
    }
}

fn push_interval(s: &mut String, i: &Interval)
    ensures
        final(s)@ == old(s)@ + interval_text(*i),
{
    if i.start == i.end {
        push_int(s, i.start);
    } else {
        s.append("[");
        push_int(s, i.start);
        s.append(", ");
        push_int(s, i.end);
        s.append("]");
        assert(final(s)@ =~= old(s)@ + interval_text(*i));
    }
}

/// The text of an identifier; see `id_text`.
pub fn id_string(id: &AbstractIdentifier) -> (r: String)
    ensures
        r@ == id_text(id@),
{
    let mut s = id.tid.id.clone();
    s.append(" @ ");
    s.append(id.location.register.name.as_str());
    let offsets = &id.location.deref_offsets;
    let ghost base = s@;
    let mut i: usize = 0;
    while i < offsets.len()
        invariant
            i <= offsets.len(),
            s@ == base + offsets_text(offsets@.take(i as int)),
        decreases offsets.len() - i,
    {
        proof {
            assert(offsets@.take(i + 1).drop_last() =~= offsets@.take(i as int));
        }
        s.append("->");
        push_int(&mut s, offsets[i]);
        i = i + 1;
        assert(s@ =~= base + offsets_text(offsets@.take(i as int)));
    }
    proof {
        assert(offsets@.take(i as int) =~= offsets@);
        assert(s@ =~= id_text(id@));
    }
    s
}

fn push_target(s: &mut String, t: &(AbstractIdentifier, Interval))
    ensures
        final(s)@ == old(s)@ + target_text(*t),
{
    let text = id_string(&t.0);
    s.append(text.as_str());
    s.append(": ");
    push_interval(s, &t.1);
    assert(final(s)@ =~= old(s)@ + target_text(*t));
}

/// The text of a value; see `data_text`.
pub fn data_string(d: &Data) -> (r: String)
    ensures
        r@ == data_text(*d),
{
    match d {
        Data::Top(size) => {
            let mut s = String::from_str("Top:");
            push_nat(&mut s, *size);
            s
        },
        Data::Value(_, i) => {
            let mut s = String::new();
            push_interval(&mut s, i);
            assert(s@ =~= data_text(*d));
            s
        },
        Data::Pointer(_, t) => {
            let mut s = String::from_str("{");
            let ghost base = s@;
            let e = &t.entries;
            let mut i: usize = 0;
            while i < e.len()
                invariant
                    i <= e.len(),
                    s@ == base + targets_text(e@.take(i as int)),
                decreases e.len() - i,
            {
                proof {
                    assert(e@.take(i + 1).drop_last() =~= e@.take(i as int));
                    assert(e@.take(i + 1).last() == e@[i as int]);
                }
                if i > 0 {
                    s.append(", ");
                }
                push_target(&mut s, &e[i]);
                i = i + 1;
                proof {
                    if i == 1 {
                        assert(e@.take(1)[0] == e@[0]);
                    }
                    assert(s@ =~= base + targets_text(e@.take(i as int)));
                }
            }
            s.append("}");
            proof {
                assert(e@.take(i as int) =~= e@);
                assert(s@ =~= data_text(*d));
            }
            s
        },
    }
}

fn push_cell(s: &mut String, c: &(i64, Data))
    ensures
        final(s)@ == old(s)@ + cell_text(*c),
{
    push_int(s, c.0);
    s.append(": ");
    let text = data_string(&c.1);
    s.append(text.as_str());
    assert(final(s)@ =~= old(s)@ + cell_text(*c));
}

/// The text of a memory object; see `object_text`.
pub fn object_string(o: &AbstractObject) -> (r: String)
    ensures
        r@ == object_text(*o),
{
    let mut s = match o.object_type {
        ObjectType::Stack => String::from_str("Stack"),
        ObjectType::Heap => String::from_str("Heap"),
        ObjectType::Param => String::from_str("Param"),
    };
    s.append(" ");
    match o.state {
        ObjectState::Live => s.append("Live"),
        ObjectState::Freed => s.append("Freed"),
        ObjectState::Unknown => s.append("Unknown"),
    }
    s.append(" ");
    push_nat(&mut s, o.size);
    s.append(" {");
    let ghost base = s@;
    let e = &o.content.entries;
    let mut i: usize = 0;
    while i < e.len()
        invariant
            i <= e.len(),
            s@ == base + content_text(e@.take(i as int)),
        decreases e.len() - i,
    {
        proof {
            assert(e@.take(i + 1).drop_last() =~= e@.take(i as int));
            assert(e@.take(i + 1).last() == e@[i as int]);
        }
        if i > 0 {
            s.append(", ");
        }
        push_cell(&mut s, &e[i]);
        i = i + 1;
        proof {
            if i == 1 {
                assert(e@.take(1)[0] == e@[0]);
            }
            assert(s@ =~= base + content_text(e@.take(i as int)));
        }
    }
    s.append("}");
    proof {
        assert(e@.take(i as int) =~= e@);
        assert(s@ =~= object_text(*o));
    }
    s
}

/// `a` comes no later than `b` in the order of their characters from
/// position `i` on, compared by code point; a prefix comes first.
pub open spec fn text_le_from(a: Seq<char>, b: Seq<char>, i: int) -> bool
    decreases a.len() - i,
{
    if i >= a.len() {
        true
    } else if i >= b.len() {
        false
    } else if a[i] != b[i] {
        a[i] < b[i]
    } else {
        text_le_from(a, b, i + 1)
    }
}

/// The ascending order of texts: by code point from the left, a prefix first.
pub open spec fn text_le(a: Seq<char>, b: Seq<char>) -> bool {
    text_le_from(a, b, 0)
}

proof fn lemma_text_le_total(a: Seq<char>, b: Seq<char>, i: int)
    requires
        0 <= i,
    ensures
        text_le_from(a, b, i) || text_le_from(b, a, i),
    decreases a.len() - i,
{
    if i < a.len() && i < b.len() && a[i] == b[i] {
        lemma_text_le_total(a, b, i + 1);
    }
}

proof fn lemma_text_le_trans(a: Seq<char>, b: Seq<char>, c: Seq<char>, i: int)
    requires
        0 <= i,
        text_le_from(a, b, i),
        text_le_from(b, c, i),
    ensures
        text_le_from(a, c, i),
    decreases a.len() - i,
{
    if i < a.len() && i < b.len() && i < c.len() && a[i] == b[i] && b[i] == c[i] {
        lemma_text_le_trans(a, b, c, i + 1);
    }
}

fn text_le_exec(a: &String, b: &String) -> (r: bool)
    ensures
        r == text_le(a@, b@),
{
    let sa = a.as_str();
    let sb = b.as_str();
    let na = sa.unicode_len();
    let nb = sb.unicode_len();
    let mut i: usize = 0;
    while i < na
        invariant
            na == a@.len(),
            nb == b@.len(),
            sa@ == a@,
            sb@ == b@,
            i <= na,
            text_le(a@, b@) == text_le_from(a@, b@, i as int),
        decreases na - i,
    {
        if i >= nb {
            return false;
        }
        let ca = sa.get_char(i);
        let cb = sb.get_char(i);
        if ca != cb {
            return ca < cb;
        }
        i = i + 1;
    }
    true
}

/// The texts of a sequence of strings.
pub open spec fn texts(s: Seq<String>) -> Seq<Seq<char>> {
    s.map_values(|x: String| x@)
}

/// The texts of a sequence of identifiers.
pub open spec fn id_texts(s: Seq<AbstractIdentifier>) -> Seq<Seq<char>> {
    s.map_values(|id: AbstractIdentifier| id_text(id@))
}

pub open spec fn ascending(t: Seq<Seq<char>>) -> bool {
    forall|a: int, b: int| 0 <= a < b < t.len() ==> text_le(#[trigger] t[a], #[trigger] t[b])
}

proof fn lemma_insert_to_multiset<A>(s: Seq<A>, p: int, x: A)
    requires
        0 <= p <= s.len(),
    ensures
        s.insert(p, x).to_multiset() =~= s.to_multiset().insert(x),
{
    broadcast use vstd::seq_lib::group_to_multiset_ensures;
    let t = s.insert(p, x);
    assert(t.remove(p) =~= s);
    assert(t[p] == x);
    assert(t.contains(x));
}

/// The texts of the identifiers of a set, in ascending order.
fn sorted_id_strings(ids: &IdSet) -> (r: Vec<String>)
    ensures
        texts(r@).to_multiset() == id_texts(ids.ids@).to_multiset(),
        ascending(texts(r@)),
{
    let mut r: Vec<String> = Vec::new();
    let mut i: usize = 0;
    proof {
        assert(texts(r@) =~= Seq::<Seq<char>>::empty());
        assert(id_texts(ids.ids@.take(0)) =~= Seq::<Seq<char>>::empty());
    }
    while i < ids.ids.len()
        invariant
            i <= ids.ids.len(),
            texts(r@).to_multiset() == id_texts(ids.ids@.take(i as int)).to_multiset(),
            ascending(texts(r@)),
        decreases ids.ids.len() - i,
    {
        let text = id_string(&ids.ids[i]);
        let mut p: usize = 0;
        while p < r.len()
            invariant
                p <= r.len(),
                forall|k: int| 0 <= k < p ==> text_le(#[trigger] r@[k]@, text@),
            ensures
                p <= r.len(),
                forall|k: int| 0 <= k < p ==> text_le(#[trigger] r@[k]@, text@),
                p < r.len() ==> !text_le(r@[p as int]@, text@),
            decreases r.len() - p,
        {
            if !text_le_exec(&r[p], &text) {
                break;
            }
            p = p + 1;
        }
        let ghost old_r = r@;
        let ghost t = text@;
        proof {
            if p < old_r.len() {
                assert(!text_le(old_r[p as int]@, t));
            }
        }
        r.insert(p, text);
        proof {
            assert(texts(r@) =~= texts(old_r).insert(p as int, t));
            lemma_insert_to_multiset(texts(old_r), p as int, t);
            assert(ids.ids@.take(i + 1) =~= ids.ids@.take(i as int).push(ids.ids@[i as int]));
            assert(id_texts(ids.ids@.take(i + 1)) =~= id_texts(ids.ids@.take(i as int)).push(t));
            broadcast use vstd::seq_lib::group_to_multiset_ensures;
            let tr = texts(r@);
            assert forall|a: int, b: int| 0 <= a < b < tr.len() implies text_le(#[trigger] tr[a], #[trigger] tr[b]) by {
                let to = texts(old_r);
                if b < p {
                    assert(tr[a] == to[a] && tr[b] == to[b]);
                } else if b == p {
                    assert(tr[a] == to[a] && tr[b] == t);
                } else if a == p {
                    assert(tr[b] == to[b - 1]);
                    lemma_text_le_total(to[p as int], t, 0);
                    if b - 1 > p {
                        lemma_text_le_trans(t, to[p as int], to[b - 1], 0);
                    }
                } else if a < p {
                    assert(tr[a] == to[a] && tr[b] == to[b - 1]);
                } else {
                    assert(tr[a] == to[a - 1] && tr[b] == to[b - 1]);
                }
            }
        }
        i = i + 1;
    }
    proof {
        assert(ids.ids@.take(i as int) =~= ids.ids@);
    }
    r
}

impl State {
    /// A compact text snapshot of the state, meant for reading, not for
    /// reading back: each register with its value and each object with its
    /// contents, in the order in which the state keeps them, and the stack
    /// identities, the two sets of them in ascending order of their text.
    pub fn compact_snapshot(&self) -> (r: Snapshot)
        ensures
            r.register.len() == self.register.entries.len(),
            forall|i: int|
                0 <= i < r.register.len() ==> (#[trigger] r.register@[i]).0@
                    == self.register.entries@[i].0.name@ && r.register@[i].1@ == data_text(
                    self.register.entries@[i].1,
                ),
            r.memory.len() == self.memory.entries.len(),
            forall|i: int|
                0 <= i < r.memory.len() ==> (#[trigger] r.memory@[i]).0@ == id_text(
                    self.memory.entries@[i].0@,
                ) && r.memory@[i].1@ == object_text(self.memory.entries@[i].1),
            r.stack_id@ == id_text(self.stack_id@),
            texts(r.caller_stack_ids@).to_multiset() == id_texts(self.caller_stack_ids.ids@).to_multiset(),
            ascending(texts(r.caller_stack_ids@)),
            texts(r.ids_known_to_caller@).to_multiset() == id_texts(self.ids_known_to_caller.ids@).to_multiset(),
            ascending(texts(r.ids_known_to_caller@)),
    {
        let mut register: Vec<(String, String)> = Vec::new();
        let mut i: usize = 0;
        while i < self.register.entries.len()
            invariant
                i <= self.register.entries.len(),
                register.len() == i,
                forall|j: int|
                    0 <= j < i ==> (#[trigger] register@[j]).0@ == self.register.entries@[j].0.name@
                        && register@[j].1@ == data_text(self.register.entries@[j].1),
            decreases self.register.entries.len() - i,
        {
            let name = self.register.entries[i].0.name.clone();
            let value = data_string(&self.register.entries[i].1);
            register.push((name, value));
            i = i + 1;
        }
        let mut memory: Vec<(String, String)> = Vec::new();
        let mut k: usize = 0;
        while k < self.memory.entries.len()
            invariant
                k <= self.memory.entries.len(),
                memory.len() == k,
                forall|j: int|
                    0 <= j < k ==> (#[trigger] memory@[j]).0@ == id_text(self.memory.entries@[j].0@)
                        && memory@[j].1@ == object_text(self.memory.entries@[j].1),
            decreases self.memory.entries.len() - k,
        {
            let id = id_string(&self.memory.entries[k].0);
            let object = object_string(&self.memory.entries[k].1);
            memory.push((id, object));
            k = k + 1;
        }
        Snapshot {
            register,
            memory,
            stack_id: id_string(&self.stack_id),
            caller_stack_ids: sorted_id_strings(&self.caller_stack_ids),
            ids_known_to_caller: sorted_id_strings(&self.ids_known_to_caller),
        }
    }
}

} // verus!
