//! The structured values that the wire codec reads and writes.

use vstd::prelude::*;

verus! {

/// A structured value as a wire codec delivers it: the data model of JSON,
/// with numbers kept by the form in which they arrived.
#[derive(Debug, PartialEq)]
pub enum Value {
    /// The explicit absence of a value.
    Null,
    /// A boolean.
    Bool(bool),
    /// An integer that arrived without a sign.
    Unsigned(u64),
    /// An integer that arrived with a sign.
    Signed(i64),
    /// A binary64 floating-point number, as its IEEE 754 bit pattern.
    Float(u64),
    /// A string.
    Text(String),
    /// An array.
    List(Vec<Value>),
    /// An object: its members in the order of the wire.
    Object(Vec<Member>),
}

/// One member of an object.
#[derive(Debug, PartialEq)]
pub struct Member {
    /// The member's name.
    pub key: String,
    /// The member's value.
    pub value: Value,
}

/// The mathematical content of a [`Value`].
pub ghost enum ValueView {
    Null,
    Bool(bool),
    Unsigned(u64),
    Signed(i64),
    Float(u64),
    Text(Seq<char>),
    List(Seq<ValueView>),
    Object(Seq<MemberView>),
}

/// The mathematical content of a [`Member`].
pub ghost struct MemberView {
    pub key: Seq<char>,
    pub value: ValueView,
}

impl View for Value {
    type V = ValueView;

    open spec fn view(&self) -> ValueView
        decreases self,
    {
        match self {
            Value::Null => ValueView::Null,
            Value::Bool(b) => ValueView::Bool(*b),
            Value::Unsigned(n) => ValueView::Unsigned(*n),
            Value::Signed(n) => ValueView::Signed(*n),
            Value::Float(bits) => ValueView::Float(*bits),
            Value::Text(text) => ValueView::Text(text@),
            Value::List(items) => ValueView::List(
                Seq::new(
                    items@.len(),
                    |i: int|
                        if 0 <= i < items@.len() {
                            items@[i].view()
                        } else {
                            ValueView::Null
                        },
                ),
            ),
            Value::Object(members) => ValueView::Object(
                Seq::new(
                    members@.len(),
                    |i: int|
                        if 0 <= i < members@.len() {
                            MemberView { key: members@[i].key@, value: members@[i].value.view() }
                        } else {
                            MemberView { key: Seq::empty(), value: ValueView::Null }
                        },
                ),
            ),
        }
    }
}

/// The contents of the members of an object, in their order.
pub open spec fn member_views(members: Seq<Member>) -> Seq<MemberView> {
    Seq::new(members.len(), |i: int| members[i]@)
}

/// The contents of the items of an array, in their order.
pub open spec fn item_views(items: Seq<Value>) -> Seq<ValueView> {
    Seq::new(items.len(), |i: int| items[i]@)
}

/// The content of an object is made of the contents of its members.
pub proof fn lemma_object_view(members: Vec<Member>)
    ensures
        Value::Object(members)@ == ValueView::Object(member_views(members@)),
{
    reveal_with_fuel(<Value as View>::view, 2);
    assert(Value::Object(members)@->Object_0 =~= member_views(members@));
}

/// The content of an array is made of the contents of its items.
pub proof fn lemma_list_view(items: Vec<Value>)
    ensures
        Value::List(items)@ == ValueView::List(item_views(items@)),
{
    reveal_with_fuel(<Value as View>::view, 2);
    assert(Value::List(items)@->List_0 =~= item_views(items@));
}

impl Value {
    /// A copy of the value, with the same content.
    #[verifier::loop_isolation(false)]
    pub fn duplicate(&self) -> (copy: Self)
        ensures
            copy@ == self@,
        decreases self,
    {
        match self {
            Value::Null => Value::Null,
            Value::Bool(v) => Value::Bool(*v),
            Value::Unsigned(v) => Value::Unsigned(*v),
            Value::Signed(v) => Value::Signed(*v),
            Value::Float(bits) => Value::Float(*bits),
            Value::Text(text) => Value::Text(text.clone()),
            Value::List(items) => {
                let mut copies: Vec<Value> = Vec::new();
                let mut i: usize = 0;
                while i < items.len()
                    invariant
                        i <= items.len(),
                        copies.len() == i,
                        forall|k: int| 0 <= k < i ==> copies@[k]@ == items@[k]@,
                    decreases items.len() - i,
                {
                    proof {
                        vstd::std_specs::vec::axiom_vec_index_decreases(*items, i as int);
                    }
                    copies.push(items[i].duplicate());
                    i = i + 1;
                }
                proof {
                    lemma_list_view(*items);
                    lemma_list_view(copies);
                    assert(item_views(copies@) =~= item_views(items@));
                }
                Value::List(copies)
            },
            Value::Object(members) => {
                let mut copies: Vec<Member> = Vec::new();
                let mut i: usize = 0;
                while i < members.len()
                    invariant
                        i <= members.len(),
                        copies.len() == i,
                        forall|k: int| 0 <= k < i ==> copies@[k]@ == members@[k]@,
                    decreases members.len() - i,
                {
                    proof {
                        vstd::std_specs::vec::axiom_vec_index_decreases(*members, i as int);
                    }
                    let member = &members[i];
                    copies.push(
                        Member { key: member.key.clone(), value: member.value.duplicate() },
                    );
                    i = i + 1;
                }
                proof {
                    lemma_object_view(*members);
                    lemma_object_view(copies);
                    assert(member_views(copies@) =~= member_views(members@));
                }
                Value::Object(copies)
            },
        }
    }
}

impl Clone for Value {
    fn clone(&self) -> (copy: Self)
        ensures
            copy@ == self@,
    {
        self.duplicate()
    }
}

impl Clone for Member {
    fn clone(&self) -> (copy: Self)
        ensures
            copy@ == self@,
    {
        Member { key: self.key.clone(), value: self.value.duplicate() }
    }
}

impl View for Member {
    type V = MemberView;

    open spec fn view(&self) -> MemberView {
        MemberView { key: self.key@, value: self.value@ }
    }
}

} // verus!
