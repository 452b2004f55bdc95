//! JSON documents, as the driver sends and takes them.

use crate::binary;
use crate::decimal;
use crate::text;
use vstd::prelude::*;

verus! {

/// A JSON number.
#[derive(Clone, Copy, Debug, PartialEq, Eq, Structural)]
pub enum JsonNumber {
    /// One that is written without a fraction and an exponent.
    Integer(i128),
    /// Any other one, by the bits of a binary64 number.
    Double(u64),
}

impl JsonNumber {
    /// The number as a binary64 one.
    pub open spec fn as_double(self) -> u64 {
        match self {
            JsonNumber::Integer(n) => binary::integer64(n as int),
            JsonNumber::Double(bits) => bits,
        }
    }

    /// The number as a binary64 one.
    pub fn double(&self) -> (bits: u64)
        ensures
            bits == self.as_double(),
    {
        match self {
            JsonNumber::Integer(n) => binary::from_integer64(*n),
            JsonNumber::Double(bits) => *bits,
        }
    }
}

/// A JSON document. The entries of an object are in the order of their keys.
#[derive(Debug)]
pub enum Json {
    Null,
    Bool(bool),
    Number(JsonNumber),
    Text(String),
    Array(Vec<Json>),
    Object(Vec<JsonEntry>),
}

/// One entry of an object.
#[derive(Debug)]
pub struct JsonEntry {
    pub key: String,
    pub value: Json,
}

/// What a document says.
pub enum Tree {
    Null,
    Bool(bool),
    Number(JsonNumber),
    Text(Seq<char>),
    Array(Seq<Tree>),
    Object(Seq<(Seq<char>, Tree)>),
}

/// The place of the first entry from `from` on that has the key `name`.
pub open spec fn find_key(entries: Seq<(Seq<char>, Tree)>, name: Seq<char>, from: int) -> Option<int>
    decreases entries.len() - from,
{
    if from < 0 || from >= entries.len() {
        None
    } else if entries[from].0 == name {
        Some(from)
    } else {
        find_key(entries, name, from + 1)
    }
}

impl Tree {
    /// The place of the entry `name` in an object.
    pub open spec fn entry_index(self, name: Seq<char>) -> Option<int> {
        match self {
            Tree::Object(entries) => find_key(entries, name, 0),
            _ => None,
        }
    }

    /// The place of the entry `name`, or of the entry whose key is `name` with its first
    /// letter in lower case.
    pub open spec fn member_index(self, name: Seq<char>) -> Option<int> {
        match self.entry_index(name) {
            Some(i) => Some(i),
            None => self.entry_index(text::lower_first(name)),
        }
    }

    /// The element or the entry's value at place `i`.
    pub open spec fn child(self, i: int) -> Option<Tree> {
        match self {
            Tree::Array(items) => if 0 <= i < items.len() {
                Some(items[i])
            } else {
                None
            },
            Tree::Object(entries) => if 0 <= i < entries.len() {
                Some(entries[i].1)
            } else {
                None
            },
            _ => None,
        }
    }

    /// The value under the key `name`.
    pub open spec fn get(self, name: Seq<char>) -> Option<Tree> {
        match self.entry_index(name) {
            Some(i) => self.child(i),
            None => None,
        }
    }

    /// The value of the member `name`, written with a capital or not.
    pub open spec fn member(self, name: Seq<char>) -> Option<Tree> {
        match self.member_index(name) {
            Some(i) => self.child(i),
            None => None,
        }
    }

    /// The member `name` where it is an array.
    pub open spec fn member_items(self, name: Seq<char>) -> Option<Seq<Tree>> {
        match self.member(name) {
            Some(Tree::Array(items)) => Some(items),
            _ => None,
        }
    }

    /// The member `name` where it is a string.
    pub open spec fn member_text(self, name: Seq<char>) -> Option<Seq<char>> {
        match self.member(name) {
            Some(Tree::Text(text)) => Some(text),
            _ => None,
        }
    }

    /// The member `name` where it is a number.
    pub open spec fn member_number(self, name: Seq<char>) -> Option<JsonNumber> {
        match self.member(name) {
            Some(Tree::Number(number)) => Some(number),
            _ => None,
        }
    }

    /// The member `name` where it is a boolean.
    pub open spec fn member_bool(self, name: Seq<char>) -> Option<bool> {
        match self.member(name) {
            Some(Tree::Bool(b)) => Some(b),
            _ => None,
        }
    }

    /// The document with the value of the member `name` replaced; unchanged where there is
    /// no such member.
    pub open spec fn with_member(self, name: Seq<char>, new: Tree) -> Tree {
        match (self, self.member_index(name)) {
            (Tree::Object(entries), Some(i)) => Tree::Object(
                entries.update(i, (entries[i].0, new)),
            ),
            _ => self,
        }
    }

    /// The number of the member `name` as text: without decimal places where it is whole,
    /// with two where it is not. Nothing where the member is no number.
    pub open spec fn number_text(self, name: Seq<char>) -> Seq<char> {
        match self.member_number(name) {
            None => Seq::empty(),
            Some(number) => if decimal::is_whole64(number.as_double()) {
                decimal::fixed64(number.as_double(), 0)
            } else {
                decimal::fixed64(number.as_double(), 2)
            },
        }
    }
}

/// Two numbers compare equal: as integers, or as binary64 numbers, where the two zeros are
/// one. An integer never equals a number that was written with a fraction or an exponent.
pub open spec fn same_number(a: JsonNumber, b: JsonNumber) -> bool {
    match (a, b) {
        (JsonNumber::Integer(m), JsonNumber::Integer(n)) => m == n,
        (JsonNumber::Double(x), JsonNumber::Double(y)) => binary::equal64(x, y),
        _ => false,
    }
}

/// Two documents compare equal: they differ at most in the sign of zeros.
pub open spec fn same_tree(a: Tree, b: Tree) -> bool
    decreases a,
{
    match (a, b) {
        (Tree::Null, Tree::Null) => true,
        (Tree::Bool(x), Tree::Bool(y)) => x == y,
        (Tree::Number(m), Tree::Number(n)) => same_number(m, n),
        (Tree::Text(s), Tree::Text(t)) => s == t,
        (Tree::Array(xs), Tree::Array(ys)) => xs.len() == ys.len() && forall|i: int|
            0 <= i < xs.len() ==> same_tree(#[trigger] xs[i], ys[i]),
        (Tree::Object(xs), Tree::Object(ys)) => xs.len() == ys.len() && forall|i: int|
            0 <= i < xs.len() ==> (#[trigger] xs[i]).0 == ys[i].0 && same_tree(xs[i].1, ys[i].1),
        _ => false,
    }
}

impl JsonEntry {
    /// The key, and what the value says.
    pub open spec fn pair(self) -> (Seq<char>, Tree) {
        (self.key@, self.value.tree())
    }
}

impl Json {
    /// What this document says.
    pub open spec fn tree(self) -> Tree
        decreases self,
    {
        match self {
            Json::Null => Tree::Null,
            Json::Bool(b) => Tree::Bool(b),
            Json::Number(n) => Tree::Number(n),
            Json::Text(s) => Tree::Text(s@),
            Json::Array(items) => Tree::Array(
                Seq::new(
                    items@.len(),
                    |i: int|
                        if 0 <= i < items@.len() {
                            items@[i].tree()
                        } else {
                            Tree::Null
                        },
                ),
            ),
            Json::Object(entries) => Tree::Object(
                Seq::new(
                    entries@.len(),
                    |i: int|
                        if 0 <= i < entries@.len() {
                            (entries@[i].key@, entries@[i].value.tree())
                        } else {
                            (Seq::empty(), Tree::Null)
                        },
                ),
            ),
        }
    }

    /// The place of the entry `name` in an object.
    pub fn entry_index(&self, name: &str) -> (index: Option<usize>)
        ensures
            match index {
                Some(i) => self@.entry_index(name@) == Some(i as int) && self is Object && i
                    < self->Object_0@.len(),
                None => self@.entry_index(name@) is None,
            },
    {
        match self {
            Json::Object(entries) => {
                let mut i: usize = 0;
                let ghost pairs = self@->Object_0;
                while i < entries.len()
                    invariant
                        i <= entries@.len(),
                        pairs == self@->Object_0,
                        *self == Json::Object(*entries),
                        pairs.len() == entries@.len(),
                        find_key(pairs, name@, 0) == find_key(pairs, name@, i as int),
                    decreases entries@.len() - i,
                {
                    assert(pairs[i as int].0 == entries@[i as int].key@);
                    if text::same_text(entries[i].key.as_str(), name) {
                        return Some(i);
                    }
                    i = i + 1;
                }
                None
            },
            _ => None,
        }
    }

    /// The place of the member `name`, written with a capital or not.
    pub fn member_index(&self, name: &str) -> (index: Option<usize>)
        requires
            name@.len() > 0,
        ensures
            match index {
                Some(i) => self@.member_index(name@) == Some(i as int) && self is Object && i
                    < self->Object_0@.len(),
                None => self@.member_index(name@) is None,
            },
    {
        match self.entry_index(name) {
            Some(i) => Some(i),
            None => {
                let lowered = text::with_lower_first(name);
                self.entry_index(lowered.as_str())
            },
        }
    }

    /// The value under the key `name`.
    pub fn get(&self, name: &str) -> (value: Option<&Json>)
        ensures
            match value {
                Some(v) => self@.get(name@) == Some(v@),
                None => self@.get(name@) is None,
            },
    {
        match self.entry_index(name) {
            Some(i) => match self {
                Json::Object(entries) => Some(&entries[i].value),
                _ => None,
            },
            None => None,
        }
    }

    /// The value of the member `name`, written with a capital or not.
    pub fn json_member(&self, name: &str) -> (value: Option<&Json>)
        requires
            name@.len() > 0,
        ensures
            match value {
                Some(v) => self@.member(name@) == Some(v@),
                None => self@.member(name@) is None,
            },
    {
        match self.member_index(name) {
            Some(i) => match self {
                Json::Object(entries) => Some(&entries[i].value),
                _ => None,
            },
            None => None,
        }
    }

    /// The value of the member `name`, to be changed.
    pub fn json_member_mut(&mut self, name: &str) -> (value: Option<&mut Json>)
        requires
            name@.len() > 0,
        ensures
            match value {
                Some(v) => old(self)@.member(name@) == Some((*v)@) && final(self)@ == old(
                    self,
                )@.with_member(name@, (*final(v))@),
                None => old(self)@.member(name@) is None && final(self)@ == old(self)@,
            },
    {
        match self.member_index(name) {
            Some(i) => match self {
                Json::Object(entries) => {
                    proof {
                        value_replaced(*entries, i as int, name@);
                    }
                    Some(&mut entries[i].value)
                },
                _ => None,
            },
            None => None,
        }
    }

    /// The elements of an array.
    pub fn as_array(&self) -> (items: Option<&Vec<Json>>)
        ensures
            match items {
                Some(v) => self@ == Tree::Array(trees(v@)),
                None => !(self@ is Array),
            },
    {
        match self {
            Json::Array(items) => {
                assert(self@->Array_0 =~= trees(items@));
                Some(items)
            },
            _ => None,
        }
    }

    /// The elements of an array, to be changed.
    pub fn as_array_mut(&mut self) -> (items: Option<&mut Vec<Json>>)
        ensures
            match items {
                Some(v) => old(self)@ == Tree::Array(trees((*v)@)) && final(self)@ == Tree::Array(
                    trees((*final(v))@),
                ),
                None => !(old(self)@ is Array) && final(self)@ == old(self)@,
            },
    {
        proof {
            array_of_trees();
        }
        match self {
            Json::Array(items) => Some(items),
            _ => None,
        }
    }

    /// The member `name` where it is a string.
    pub fn json_string(&self, name: &str) -> (text: Option<String>)
        requires
            name@.len() > 0,
        ensures
            match text {
                Some(t) => self@.member_text(name@) == Some(t@),
                None => self@.member_text(name@) is None,
            },
    {
        match self.json_member(name) {
            Some(Json::Text(t)) => Some(t.clone()),
            _ => None,
        }
    }

    /// Whether the member `name` is the string `wanted`.
    pub fn member_is(&self, name: &str, wanted: &str) -> (is: bool)
        requires
            name@.len() > 0,
        ensures
            is == (self@.member_text(name@) == Some(wanted@)),
    {
        match self.json_string(name) {
            Some(t) => text::same_text(t.as_str(), wanted),
            None => false,
        }
    }

    /// The member `name` where it is a number, as a binary64 one.
    pub fn json_number(&self, name: &str) -> (bits: Option<u64>)
        requires
            name@.len() > 0,
        ensures
            match bits {
                Some(b) => self@.member_number(name@) is Some && self@.member_number(
                    name@,
                )->0.as_double() == b,
                None => self@.member_number(name@) is None,
            },
    {
        match self.json_member(name) {
            Some(Json::Number(n)) => Some(n.double()),
            _ => None,
        }
    }

    /// The number of the member `name` as text.
    pub fn json_number_string(&self, name: &str) -> (text: String)
        requires
            name@.len() > 0,
        ensures
            text@ == self@.number_text(name@),
    {
        match self.json_number(name) {
            None => String::new(),
            Some(bits) => if decimal::whole64(bits) {
                decimal::fixed_text64(bits, 0)
            } else {
                decimal::fixed_text64(bits, 2)
            },
        }
    }

    /// Whether two documents compare equal.
    pub fn same(&self, other: &Json) -> (same: bool)
        ensures
            same == same_tree(self@, other@),
        decreases self,
    {
        match (self, other) {
            (Json::Null, Json::Null) => true,
            (Json::Bool(a), Json::Bool(b)) => *a == *b,
            (Json::Number(a), Json::Number(b)) => equal_numbers(*a, *b),
            (Json::Text(a), Json::Text(b)) => text::same_text(a.as_str(), b.as_str()),
            (Json::Array(a), Json::Array(b)) => {
                if a.len() != b.len() {
                    return false;
                }
                let ghost xs = self@->Array_0;
                let ghost ys = other@->Array_0;
                let mut i: usize = 0;
                while i < a.len()
                    invariant
                        i <= a@.len(),
                        a@.len() == b@.len(),
                        *self == Json::Array(*a),
                        *other == Json::Array(*b),
                        xs == self@->Array_0,
                        ys == other@->Array_0,
                        xs.len() == a@.len(),
                        ys.len() == b@.len(),
                        forall|k: int| 0 <= k < i ==> same_tree(#[trigger] xs[k], ys[k]),
                    decreases a@.len() - i,
                {
                    assert(decreases_to!(self => self->Array_0));
                    assert(decreases_to!(self->Array_0 => self->Array_0@));
                    assert(decreases_to!(self->Array_0@ => self->Array_0@[i as int]));
                    assert(xs[i as int] == a@[i as int]@);
                    assert(ys[i as int] == b@[i as int]@);
                    if !a[i].same(&b[i]) {
                        return false;
                    }
                    i = i + 1;
                }
                true
            },
            (Json::Object(a), Json::Object(b)) => {
                if a.len() != b.len() {
                    return false;
                }
                let ghost xs = self@->Object_0;
                let ghost ys = other@->Object_0;
                let mut i: usize = 0;
                while i < a.len()
                    invariant
                        i <= a@.len(),
                        a@.len() == b@.len(),
                        *self == Json::Object(*a),
                        *other == Json::Object(*b),
                        xs == self@->Object_0,
                        ys == other@->Object_0,
                        xs.len() == a@.len(),
                        ys.len() == b@.len(),
                        forall|k: int|
                            0 <= k < i ==> (#[trigger] xs[k]).0 == ys[k].0 && same_tree(
                                xs[k].1,
                                ys[k].1,
                            ),
                    decreases a@.len() - i,
                {
                    assert(decreases_to!(self => self->Object_0));
                    assert(decreases_to!(self->Object_0 => self->Object_0@));
                    assert(decreases_to!(self->Object_0@ => self->Object_0@[i as int]));
                    assert(xs[i as int] == a@[i as int].pair());
                    assert(ys[i as int] == b@[i as int].pair());
                    if !text::same_text(a[i].key.as_str(), b[i].key.as_str())
                        || !a[i].value.same(&b[i].value) {
                        return false;
                    }
                    i = i + 1;
                }
                true
            },
            _ => false,
        }
    }

    /// A document that says the same.
    pub fn copy(&self) -> (copy: Json)
        ensures
            copy@ == self@,
        decreases self,
    {
        match self {
            Json::Null => Json::Null,
            Json::Bool(b) => Json::Bool(*b),
            Json::Number(n) => Json::Number(*n),
            Json::Text(s) => Json::Text(s.clone()),
            Json::Array(items) => {
                let mut copies: Vec<Json> = Vec::new();
                let mut i: usize = 0;
                while i < items.len()
                    invariant
                        i <= items@.len(),
                        *self == Json::Array(*items),
                        copies@.len() == i,
                        forall|k: int| 0 <= k < i ==> (#[trigger] copies@[k])@ == items@[k]@,
                    decreases items@.len() - i,
                {
                    assert(decreases_to!(self => self->Array_0));
                    assert(decreases_to!(self->Array_0 => self->Array_0@));
                    assert(decreases_to!(self->Array_0@ => self->Array_0@[i as int]));
                    let copy = items[i].copy();
                    copies.push(copy);
                    i = i + 1;
                }
                let copy = Json::Array(copies);
                assert(copy@->Array_0 =~= self@->Array_0);
                copy
            },
            Json::Object(entries) => {
                let mut copies: Vec<JsonEntry> = Vec::new();
                let mut i: usize = 0;
                while i < entries.len()
                    invariant
                        i <= entries@.len(),
                        *self == Json::Object(*entries),
                        copies@.len() == i,
                        forall|k: int|
                            0 <= k < i ==> (#[trigger] copies@[k]).pair() == entries@[k].pair(),
                    decreases entries@.len() - i,
                {
                    assert(decreases_to!(self => self->Object_0));
                    assert(decreases_to!(self->Object_0 => self->Object_0@));
                    assert(decreases_to!(self->Object_0@ => self->Object_0@[i as int]));
                    let value = entries[i].value.copy();
                    copies.push(JsonEntry { key: entries[i].key.clone(), value });
                    i = i + 1;
                }
                let copy = Json::Object(copies);
                assert(copy@->Object_0 =~= self@->Object_0);
                copy
            },
        }
    }
}

/// What some documents say.
pub open spec fn trees(items: Seq<Json>) -> Seq<Tree> {
    items.map_values(|item: Json| item.tree())
}

/// An array says what its elements say.
proof fn array_of_trees()
    ensures
        forall|items: Vec<Json>| (#[trigger] Json::Array(items).tree()) == Tree::Array(
            trees(items@),
        ),
{
    assert forall|items: Vec<Json>| (#[trigger] Json::Array(items).tree()) == Tree::Array(
        trees(items@),
    ) by {
        assert(Json::Array(items).tree()->Array_0 =~= trees(items@));
    }
}

/// Whether two numbers compare equal.
fn equal_numbers(a: JsonNumber, b: JsonNumber) -> (same: bool)
    ensures
        same == same_number(a, b),
{
    match (a, b) {
        (JsonNumber::Integer(m), JsonNumber::Integer(n)) => m == n,
        (JsonNumber::Double(x), JsonNumber::Double(y)) => binary::eq64(x, y),
        _ => false,
    }
}

/// What an object says when the value of one entry is another one.
proof fn value_replaced(entries: Vec<JsonEntry>, i: int, name: Seq<char>)
    requires
        0 <= i < entries@.len(),
        Json::Object(entries)@.member_index(name) == Some(i),
    ensures
        forall|new: Vec<JsonEntry>|
            new@.len() == entries@.len() && new@[i].key == entries@[i].key && (forall|k: int|
                0 <= k < entries@.len() && k != i ==> new@[k] == entries@[k]) ==> (
            #[trigger] Json::Object(new).tree()) == Json::Object(entries)@.with_member(
                name,
                new@[i].value@,
            ),
{
    assert forall|new: Vec<JsonEntry>|
        new@.len() == entries@.len() && new@[i].key == entries@[i].key && (forall|k: int|
            0 <= k < entries@.len() && k != i ==> new@[k] == entries@[k]) implies (
    #[trigger] Json::Object(new).tree()) == Json::Object(entries)@.with_member(
        name,
        new@[i].value@,
    ) by {
        assert(Json::Object(new).tree()->Object_0 =~= Json::Object(entries)@.with_member(
            name,
            new@[i].value@,
        )->Object_0);
    }
}

// ---- members ----

/// Two names that no key can stand for both of.
pub open spec fn apart(a: Seq<char>, b: Seq<char>) -> bool {
    &&& a != b
    &&& text::lower_first(a) != b
    &&& a != text::lower_first(b)
    &&& text::lower_first(a) != text::lower_first(b)
}

/// Where a key stands depends on the keys alone.
pub proof fn keys_decide(a: Seq<(Seq<char>, Tree)>, b: Seq<(Seq<char>, Tree)>, name: Seq<char>, from: int)
    requires
        a.len() == b.len(),
        forall|i: int| 0 <= i < a.len() ==> (#[trigger] a[i]).0 == b[i].0,
        0 <= from,
    ensures
        find_key(a, name, from) == find_key(b, name, from),
        match find_key(a, name, from) {
            Some(i) => from <= i < a.len() && a[i].0 == name,
            None => true,
        },
    decreases a.len() - from,
{
    if from < a.len() && a[from].0 != name {
        keys_decide(a, b, name, from + 1);
    }
}

/// Replacing the value of a member moves no member: the one that was replaced has the new
/// value, and every one with a name apart from its name has the value that it had.
pub proof fn one_member_changes(tree: Tree, name: Seq<char>, new: Tree, other: Seq<char>)
    requires
        tree.member(name) is Some,
    ensures
        tree.with_member(name, new).member(name) == Some(new),
        apart(name, other) ==> tree.with_member(name, new).member(other) == tree.member(other),
{
    let entries = tree->Object_0;
    let i = tree.member_index(name)->0;
    let changed = entries.update(i, (entries[i].0, new));
    keys_decide(entries, changed, name, 0);
    keys_decide(entries, changed, text::lower_first(name), 0);
    keys_decide(entries, changed, other, 0);
    keys_decide(entries, changed, text::lower_first(other), 0);
}

impl View for Json {
    type V = Tree;

    open spec fn view(&self) -> Tree {
        self.tree()
    }
}

// ---- laws ----

/// The entries have no key `name` before the place `i`.
pub open spec fn unnamed_before(entries: Seq<(Seq<char>, Tree)>, name: Seq<char>, i: int) -> bool {
    forall|k: int| 0 <= k < i ==> (#[trigger] entries[k]).0 != name
}

/// A key is found at its first place.
proof fn first_key_is_found(entries: Seq<(Seq<char>, Tree)>, name: Seq<char>, i: int, from: int)
    requires
        0 <= from <= i <= entries.len(),
        unnamed_before(entries, name, i),
        i < entries.len() ==> entries[i].0 == name,
    ensures
        find_key(entries, name, from) == if i < entries.len() {
            Some(i)
        } else {
            None
        },
    decreases i - from,
{
    if from < i {
        first_key_is_found(entries, name, i, from + 1);
    }
}

/// The value under a key is that of the first entry with this key.
pub proof fn value_is_that_of_its_key(entries: Seq<(Seq<char>, Tree)>, name: Seq<char>, i: int)
    requires
        0 <= i < entries.len(),
        entries[i].0 == name,
        unnamed_before(entries, name, i),
    ensures
        Tree::Object(entries).get(name) == Some(entries[i].1),
        Tree::Object(entries).member(name) == Some(entries[i].1),
{
    first_key_is_found(entries, name, i, 0);
}

/// A member may also be written with a small first letter. There is none where neither key
/// occurs, nor in anything but an object.
pub proof fn members_may_start_small(entries: Seq<(Seq<char>, Tree)>, name: Seq<char>, i: int)
    requires
        name.len() > 0,
        'A' <= name[0] <= 'Z',
        0 <= i <= entries.len(),
        unnamed_before(entries, name, entries.len() as int),
    ensures
        ({
            let small = seq![((name[0] as u8) + 32) as char] + name.skip(1);
            &&& i < entries.len() && entries[i].0 == small && unnamed_before(entries, small, i)
                ==> Tree::Object(entries).member(name) == Some(entries[i].1)
            &&& unnamed_before(entries, small, entries.len() as int) ==> Tree::Object(
                entries,
            ).member(name) is None
        }),
{
    let small = seq![((name[0] as u8) + 32) as char] + name.skip(1);
    assert(text::lower_first(name) =~= small);
    first_key_is_found(entries, name, entries.len() as int, 0);
    if i < entries.len() && entries[i].0 == small && unnamed_before(entries, small, i) {
        first_key_is_found(entries, small, i, 0);
    }
    if unnamed_before(entries, small, entries.len() as int) {
        first_key_is_found(entries, small, entries.len() as int, 0);
    }
}

/// Only objects have members.
pub proof fn only_objects_have_members(tree: Tree, name: Seq<char>)
    requires
        !(tree is Object),
    ensures
        tree.get(name) is None,
        tree.member(name) is None,
{
}

/// A value that is replaced changes one entry, and no key: every entry but the first with that
/// key is the one it was.
pub proof fn one_entry_changes(tree: Tree, name: Seq<char>, new: Tree, k: int)
    requires
        tree.member(name) is Some,
        0 <= k < tree->Object_0.len(),
    ensures
        tree is Object,
        tree.with_member(name, new) is Object,
        tree.with_member(name, new)->Object_0.len() == tree->Object_0.len(),
        tree.with_member(name, new)->Object_0[k].0 == tree->Object_0[k].0,
        tree->Object_0[k].0 != name && tree->Object_0[k].0 != text::lower_first(name)
            ==> tree.with_member(name, new)->Object_0[k] == tree->Object_0[k],
{
    let entries = tree->Object_0;
    keys_decide(entries, entries, name, 0);
    keys_decide(entries, entries, text::lower_first(name), 0);
}

/// A number without its sign where it is zero.
pub open spec fn plain_number(number: JsonNumber) -> JsonNumber {
    match number {
        JsonNumber::Integer(n) => JsonNumber::Integer(n),
        JsonNumber::Double(bits) => if bits == 0x8000_0000_0000_0000 {
            JsonNumber::Double(0)
        } else {
            JsonNumber::Double(bits)
        },
    }
}

/// A document in which no zero has a sign.
pub open spec fn plain(tree: Tree) -> Tree
    decreases tree,
{
    match tree {
        Tree::Number(number) => Tree::Number(plain_number(number)),
        Tree::Array(items) => Tree::Array(
            Seq::new(
                items.len(),
                |i: int|
                    if 0 <= i < items.len() {
                        plain(items[i])
                    } else {
                        Tree::Null
                    },
            ),
        ),
        Tree::Object(entries) => Tree::Object(
            Seq::new(
                entries.len(),
                |i: int|
                    if 0 <= i < entries.len() {
                        (entries[i].0, plain(entries[i].1))
                    } else {
                        (Seq::empty(), Tree::Null)
                    },
            ),
        ),
        _ => tree,
    }
}

/// Documents that compare equal are the same but for the signs of zeros.
pub proof fn equal_documents_are_the_same(a: Tree, b: Tree)
    requires
        same_tree(a, b),
    ensures
        plain(a) == plain(b),
    decreases a,
{
    match (a, b) {
        (Tree::Array(xs), Tree::Array(ys)) => {
            assert forall|i: int| 0 <= i < xs.len() implies plain(#[trigger] xs[i]) == plain(
                ys[i],
            ) by {
                equal_documents_are_the_same(xs[i], ys[i]);
            }
            assert(plain(a)->Array_0 =~= plain(b)->Array_0);
        },
        (Tree::Object(xs), Tree::Object(ys)) => {
            assert forall|i: int| 0 <= i < xs.len() implies (#[trigger] xs[i]).0 == ys[i].0
                && plain(xs[i].1) == plain(ys[i].1) by {
                assert(decreases_to!(a => xs));
                assert(decreases_to!(xs => xs[i]));
                assert(decreases_to!(xs[i] => xs[i].1));
                equal_documents_are_the_same(xs[i].1, ys[i].1);
            }
            assert(plain(a)->Object_0 =~= plain(b)->Object_0);
        },
        _ => {},
    }
}

/// No number of the document is a NaN.
pub open spec fn all_numbers(tree: Tree) -> bool
    decreases tree,
{
    match tree {
        Tree::Number(JsonNumber::Double(bits)) => !binary::is_nan64(bits),
        Tree::Array(items) => forall|i: int| 0 <= i < items.len() ==> all_numbers(#[trigger] items[i]),
        Tree::Object(entries) => forall|i: int|
            0 <= i < entries.len() ==> all_numbers((#[trigger] entries[i]).1),
        _ => true,
    }
}

/// A document compares equal to itself.
pub proof fn documents_equal_themselves(tree: Tree)
    requires
        all_numbers(tree),
    ensures
        same_tree(tree, tree),
    decreases tree,
{
    match tree {
        Tree::Array(items) => {
            assert forall|i: int| 0 <= i < items.len() implies same_tree(
                #[trigger] items[i],
                items[i],
            ) by {
                documents_equal_themselves(items[i]);
            }
        },
        Tree::Object(entries) => {
            assert forall|i: int| 0 <= i < entries.len() implies (#[trigger] entries[i]).0
                == entries[i].0 && same_tree(entries[i].1, entries[i].1) by {
                assert(decreases_to!(tree => entries));
                assert(decreases_to!(entries => entries[i]));
                assert(decreases_to!(entries[i] => entries[i].1));
                documents_equal_themselves(entries[i].1);
            }
        },
        _ => {},
    }
}

/// A text says a number, given in multiples of 2^-1074: exactly and without decimal places where
/// the number is whole, and to the nearest hundredth where it is not.
pub open spec fn shows(text: Seq<char>, exact: int) -> bool {
    if exact % binary::one() == 0 {
        decimal::said(text, 0) is Some && decimal::said(text, 0)->0 * binary::one() == exact
    } else {
        decimal::said(text, 2) is Some && -binary::one() <= 2 * (decimal::said(text, 2)->0
            * binary::one() - 100 * exact) <= binary::one()
    }
}

/// The text of a member that is a number shows the number. The text of anything else is empty.
pub proof fn number_texts_say_their_number(tree: Tree, name: Seq<char>)
    ensures
        !(tree.member(name) matches Some(Tree::Number(_))) ==> tree.number_text(name).len() == 0,
        tree.member(name) matches Some(Tree::Number(JsonNumber::Integer(n))) ==> (
        -0x20_0000_0000_0000 < n < 0x20_0000_0000_0000 ==> decimal::said(
            tree.number_text(name),
            0,
        ) == Some(n as int)),
        tree.member(name) matches Some(Tree::Number(JsonNumber::Double(bits))) ==> (
        binary::is_finite64(bits) ==> shows(tree.number_text(name), binary::value64(bits))),
{
    match tree.member(name) {
        Some(Tree::Number(JsonNumber::Integer(n))) => {
            if -0x20_0000_0000_0000 < n < 0x20_0000_0000_0000 {
                let bits = binary::integer64(n as int);
                let o = binary::one();
                vstd::arithmetic::power2::lemma_pow2_pos(1074);
                binary::integers_are_exact64(n as int);
                vstd::arithmetic::div_mod::lemma_fundamental_div_mod_converse(
                    n * o,
                    o,
                    n as int,
                    0,
                );
                decimal::whole_numbers_are_written_exactly(bits);
                let m = decimal::said(decimal::fixed64(bits, 0), 0)->0;
                assert(m == n) by (nonlinear_arith)
                    requires
                        m * o == n * o,
                        o > 0,
                ;
            }
        },
        Some(Tree::Number(JsonNumber::Double(bits))) => {
            if binary::is_finite64(bits) {
                if binary::value64(bits) % binary::one() == 0 {
                    decimal::whole_numbers_are_written_exactly(bits);
                } else {
                    decimal::written_numbers_say_their_value64(bits, 2);
                    assert(decimal::ten_to(2) == 100) by {
                        reveal_with_fuel(decimal::ten_to, 3);
                    }
                    let v = binary::value64(bits);
                    assert(v * 100 == 100 * v);
                }
            }
        },
        _ => {},
    }
}

} // verus!
