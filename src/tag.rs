//! The tag tree: executable nodes, their mathematical model, and the
//! field-level operations the rewriter is built from.

use vstd::prelude::*;

verus! {

/// One node of a document. Leaf kinds the engine neither reads nor rewrites
/// are carried as an `Opaque` handle chosen by whoever built the tree.
#[derive(Debug, PartialEq, Eq)]
pub enum Tag {
    Int(i32),
    Long(i64),
    Text(String),
    List(Vec<Tag>),
    CompoundList(Vec<Vec<Field>>),
    Compound(Vec<Field>),
    Opaque(u64),
}

/// A named entry of a compound.
#[derive(Debug, PartialEq, Eq)]
pub struct Field {
    pub name: String,
    pub value: Tag,
}

/// The model of a node.
pub enum Node {
    Int(i32),
    Long(i64),
    Text(Seq<char>),
    List(Seq<Node>),
    CompoundList(Seq<Seq<(Seq<char>, Node)>>),
    Compound(Seq<(Seq<char>, Node)>),
    Opaque(u64),
}

/// The model of a compound: its entries, in order.
pub type Entries = Seq<(Seq<char>, Node)>;

pub open spec fn view_fields(v: Vec<Field>) -> Entries
    decreases v, 0nat,
{
    Seq::new(
        v.len() as nat,
        |i: int|
            if 0 <= i < v.len() {
                (v[i].name@, view_tag(v[i].value))
            } else {
                (Seq::empty(), Node::Int(0))
            },
    )
}

pub open spec fn view_compounds(v: Vec<Vec<Field>>) -> Seq<Entries>
    decreases v, 1nat,
{
    Seq::new(
        v.len() as nat,
        |i: int|
            if 0 <= i < v.len() {
                view_fields(v[i])
            } else {
                Seq::empty()
            },
    )
}

pub open spec fn view_tag(t: Tag) -> Node
    decreases t, 2nat,
{
    match t {
        Tag::Int(n) => Node::Int(n),
        Tag::Long(n) => Node::Long(n),
        Tag::Text(s) => Node::Text(s@),
        Tag::List(v) => Node::List(
            Seq::new(
                v.len() as nat,
                |i: int|
                    if 0 <= i < v.len() {
                        view_tag(v[i])
                    } else {
                        Node::Int(0)
                    },
            ),
        ),
        Tag::CompoundList(v) => Node::CompoundList(view_compounds(v)),
        Tag::Compound(v) => Node::Compound(view_fields(v)),
        Tag::Opaque(h) => Node::Opaque(h),
    }
}

/// Index of the first entry called `name`; the length when there is none.
pub open spec fn position(c: Entries, name: Seq<char>) -> nat
    decreases c.len(),
{
    if c.len() == 0 {
        0
    } else if c[0].0 == name {
        0
    } else {
        1 + position(c.drop_first(), name)
    }
}

/// The value of the first entry called `name`.
pub open spec fn lookup(c: Entries, name: Seq<char>) -> Option<Node> {
    let k = position(c, name);
    if k < c.len() {
        Some(c[k as int].1)
    } else {
        None
    }
}

/// `c` with every entry called `name` removed, the others kept in order.
pub open spec fn without(c: Entries, name: Seq<char>) -> Entries
    decreases c.len(),
{
    if c.len() == 0 {
        c
    } else if c[0].0 == name {
        without(c.drop_first(), name)
    } else {
        seq![c[0]] + without(c.drop_first(), name)
    }
}

/// `c` with every entry called `name` removed and `name: v` appended at the end.
pub open spec fn replace_at_end(c: Entries, name: Seq<char>, v: Node) -> Entries {
    without(c, name).push((name, v))
}

/// `c` with the value of its first entry called `name` set to `v`, in place.
pub open spec fn update_first(c: Entries, name: Seq<char>, v: Node) -> Entries {
    let k = position(c, name);
    if k < c.len() {
        c.update(k as int, (c[k as int].0, v))
    } else {
        c
    }
}

pub proof fn lemma_position(c: Entries, name: Seq<char>)
    ensures
        position(c, name) <= c.len(),
        position(c, name) < c.len() ==> c[position(c, name) as int].0 == name,
        forall|j: int| 0 <= j < position(c, name) ==> c[j].0 != name,
    decreases c.len(),
{
    if c.len() > 0 && c[0].0 != name {
        lemma_position(c.drop_first(), name);
        assert forall|j: int| 0 <= j < position(c, name) implies c[j].0 != name by {
            if j > 0 {
                assert(c[j] == c.drop_first()[j - 1]);
            }
        }
    }
}

/// After removing every entry called `name`, none is left.
pub proof fn lemma_without_excludes(c: Entries, name: Seq<char>)
    ensures
        lookup(without(c, name), name) == None::<Node>,
        position(without(c, name), name) == without(c, name).len(),
    decreases c.len(),
{
    lemma_position(without(c, name), name);
    if c.len() > 0 {
        lemma_without_excludes(c.drop_first(), name);
        if c[0].0 != name {
            let w = without(c.drop_first(), name);
            assert((seq![c[0]] + w).drop_first() =~= w);
        }
    }
}

/// Positions depend on the names alone.
pub proof fn lemma_position_names(c: Entries, d: Entries, name: Seq<char>)
    requires
        c.len() == d.len(),
        forall|i: int| 0 <= i < c.len() ==> (#[trigger] c[i]).0 == d[i].0,
    ensures
        position(c, name) == position(d, name),
    decreases c.len(),
{
    if c.len() > 0 {
        lemma_position_names(c.drop_first(), d.drop_first(), name);
    }
}

/// An appended entry is found when no earlier entry has its name.
pub proof fn lemma_lookup_pushed(w: Entries, name: Seq<char>, v: Node)
    requires
        lookup(w, name) == None::<Node>,
    ensures
        lookup(w.push((name, v)), name) == Some(v),
        position(w.push((name, v)), name) == w.len(),
    decreases w.len(),
{
    lemma_position(w, name);
    if w.len() > 0 {
        assert(w.push((name, v)).drop_first() =~= w.drop_first().push((name, v)));
        lemma_position(w.drop_first(), name);
        lemma_lookup_pushed(w.drop_first(), name, v);
    }
}

/// Removing `name` ignores an appended entry called `name`.
pub proof fn lemma_without_pushed(w: Entries, name: Seq<char>, v: Node)
    ensures
        without(w.push((name, v)), name) == without(w, name),
    decreases w.len(),
{
    if w.len() == 0 {
        assert(w.push((name, v)).drop_first() =~= w);
    } else {
        assert(w.push((name, v)).drop_first() =~= w.drop_first().push((name, v)));
        lemma_without_pushed(w.drop_first(), name, v);
    }
}

/// Removing `name` twice is removing it once.
pub proof fn lemma_without_twice(c: Entries, name: Seq<char>)
    ensures
        without(without(c, name), name) == without(c, name),
    decreases c.len(),
{
    if c.len() > 0 {
        lemma_without_twice(c.drop_first(), name);
        if c[0].0 != name {
            let w = without(c.drop_first(), name);
            assert((seq![c[0]] + w).drop_first() =~= w);
        }
    }
}

/// What replacing at the end leaves: the new value is the one found, and
/// the other entries are those of `c`, in order.
pub proof fn lemma_replace_at_end(c: Entries, name: Seq<char>, v: Node)
    ensures
        lookup(replace_at_end(c, name, v), name) == Some(v),
        without(replace_at_end(c, name, v), name) == without(c, name),
{
    lemma_without_excludes(c, name);
    lemma_lookup_pushed(without(c, name), name, v);
    lemma_without_pushed(without(c, name), name, v);
    lemma_without_twice(c, name);
}

/// Updating the first entry called `name` makes `v` the value found.
pub proof fn lemma_update_first(c: Entries, name: Seq<char>, v: Node)
    requires
        lookup(c, name).is_some(),
    ensures
        lookup(update_first(c, name, v), name) == Some(v),
        update_first(c, name, v).len() == c.len(),
        forall|i: int|
            0 <= i < c.len() && i != position(c, name) ==> #[trigger] update_first(c, name, v)[i]
                == c[i],
{
    let k = position(c, name);
    let d = update_first(c, name, v);
    lemma_position_names(c, d, name);
}

/// Removing one name leaves what is found under another.
pub proof fn lemma_without_lookup_other(c: Entries, name: Seq<char>, other: Seq<char>)
    requires
        name != other,
    ensures
        lookup(without(c, name), other) == lookup(c, other),
    decreases c.len(),
{
    lemma_position(c, other);
    lemma_position(without(c, name), other);
    if c.len() > 0 {
        lemma_without_lookup_other(c.drop_first(), name, other);
        lemma_position(c.drop_first(), other);
        if c[0].0 != name {
            let w = without(c.drop_first(), name);
            assert((seq![c[0]] + w).drop_first() =~= w);
            lemma_position(w, other);
        }
    }
}

/// Appending an entry leaves what is found under another name.
pub proof fn lemma_pushed_lookup_other(w: Entries, name: Seq<char>, v: Node, other: Seq<char>)
    requires
        name != other,
    ensures
        lookup(w.push((name, v)), other) == lookup(w, other),
    decreases w.len(),
{
    lemma_position(w, other);
    lemma_position(w.push((name, v)), other);
    if w.len() > 0 {
        assert(w.push((name, v)).drop_first() =~= w.drop_first().push((name, v)));
        lemma_pushed_lookup_other(w.drop_first(), name, v, other);
        lemma_position(w.drop_first(), other);
        lemma_position(w.drop_first().push((name, v)), other);
    }
}

/// Replacing one name at the end leaves what is found under another.
pub proof fn lemma_replace_lookup_other(c: Entries, name: Seq<char>, v: Node, other: Seq<char>)
    requires
        name != other,
    ensures
        lookup(replace_at_end(c, name, v), other) == lookup(c, other),
{
    lemma_without_lookup_other(c, name, other);
    lemma_pushed_lookup_other(without(c, name), name, v, other);
}

/// Updating the first entry called `name` leaves what is found under another.
pub proof fn lemma_update_lookup_other(c: Entries, name: Seq<char>, v: Node, other: Seq<char>)
    requires
        name != other,
    ensures
        lookup(update_first(c, name, v), other) == lookup(c, other),
{
    let d = update_first(c, name, v);
    lemma_position_names(c, d, other);
    lemma_position(c, other);
    lemma_position(c, name);
}

/// Whether a field's name reads `name`.
pub fn name_is(field: &Field, name: &str) -> (r: bool)
    ensures
        r == (field.name@ == name@),
{
    field.name == name.to_owned()
}

/// The index of the first field called `name`.
pub fn find_field(fields: &Vec<Field>, name: &str) -> (r: Option<usize>)
    ensures
        match r {
            Some(k) => k == position(view_fields(*fields), name@) && k < fields.len(),
            None => position(view_fields(*fields), name@) == fields.len(),
        },
{
    let ghost c = view_fields(*fields);
    let mut i: usize = 0;
    assert(c.skip(0) =~= c);
    while i < fields.len()
        invariant
            c == view_fields(*fields),
            i <= fields.len(),
            position(c, name@) == i + position(c.skip(i as int), name@),
        decreases fields.len() - i,
    {
        assert(c.skip(i as int)[0] == c[i as int]);
        if name_is(&fields[i], name) {
            return Some(i);
        }
        assert(c.skip(i as int).drop_first() =~= c.skip(i + 1));
        i = i + 1;
    }
    assert(c.skip(i as int).len() == 0);
    None
}

/// Splits off every field called `name`, keeping the others in order, and
/// hands back the value of the first one.
pub fn take_named(fields: Vec<Field>, name: &str) -> (r: (Vec<Field>, Option<Tag>))
    ensures
        view_fields(r.0) == without(view_fields(fields), name@),
        match r.1 {
            Some(t) => lookup(view_fields(fields), name@) == Some(view_tag(t)),
            None => lookup(view_fields(fields), name@) == None::<Node>,
        },
{
    let ghost c = view_fields(fields);
    let mut rest = fields;
    let mut kept: Vec<Field> = Vec::new();
    let mut first: Option<Tag> = None;
    while rest.len() > 0
        invariant
            view_fields(kept) + without(view_fields(rest), name@) == without(c, name@),
            match first {
                Some(t) => lookup(c, name@) == Some(view_tag(t)),
                None => lookup(c, name@) == lookup(view_fields(rest), name@),
            },
        decreases rest.len(),
    {
        let ghost before = view_fields(rest);
        let ghost kept_before = view_fields(kept);
        let f = rest.remove(0);
        assert(view_fields(rest) =~= before.drop_first());
        assert(before[0] == (f.name@, view_tag(f.value)));
        if name_is(&f, name) {
            if first.is_none() {
                first = Some(f.value);
            }
        } else {
            kept.push(f);
            assert(view_fields(kept) =~= kept_before.push(before[0]));
            assert(view_fields(kept) + without(view_fields(rest), name@) =~= kept_before + (
            seq![before[0]] + without(view_fields(rest), name@)));
        }
    }
    assert(without(view_fields(rest), name@) =~= Seq::<(Seq<char>, Node)>::empty());
    assert(view_fields(kept) =~= without(c, name@));
    (kept, first)
}

} // verus!
