//! JSON values: a tree with a mathematical view, read and written by `serde_json`.
use crate::text;
use vstd::prelude::*;

verus! {

/// A JSON value of `serde_json`.
#[verifier::external_type_specification]
#[verifier::external_body]
pub struct ExValue(serde_json::Value);

/// A JSON number of `serde_json`.
#[verifier::external_type_specification]
#[verifier::external_body]
pub struct ExNumber(serde_json::Number);

/// `serde_json::Number::is_f64`: the number is no integer of 64 bits.
pub uninterp spec fn is_fraction(n: serde_json::Number) -> bool;

/// A JSON number that is no integer of 64 bits.
pub struct Fraction {
    number: serde_json::Number,
}

impl Fraction {
    #[verifier::type_invariant]
    spec fn inv(self) -> bool {
        is_fraction(self.number)
    }

    /// The number.
    pub closed spec fn number(self) -> serde_json::Number {
        self.number
    }
}

impl Clone for Fraction {
    fn clone(&self) -> (r: Self)
        ensures
            r == *self,
    {
        proof {
            use_type_invariant(self);
        }
        Fraction { number: clone_number(&self.number) }
    }
}

/// A JSON value. The members of an object stand in the order of their names.
pub enum Json {
    Null,
    Bool(bool),
    /// An integer that fits into 64 bits with a sign.
    Int(i64),
    /// An integer that fits into 64 bits without a sign.
    Big(u64),
    /// Any other number.
    Float(Fraction),
    Str(String),
    Arr(Vec<Json>),
    Obj(Vec<(String, Json)>),
}

/// What a JSON value is.
pub enum JsonV {
    Null,
    Bool(bool),
    Int(int),
    Float(serde_json::Number),
    Str(Seq<char>),
    Arr(Seq<JsonV>),
    Obj(Seq<(Seq<char>, JsonV)>),
}

/// The tree of a JSON value.
pub open spec fn tree(j: Json) -> JsonV
    decreases j,
{
    match j {
        Json::Null => JsonV::Null,
        Json::Bool(b) => JsonV::Bool(b),
        Json::Int(n) => JsonV::Int(n as int),
        Json::Big(n) => JsonV::Int(n as int),
        Json::Float(f) => JsonV::Float(f.number()),
        Json::Str(s) => JsonV::Str(s@),
        Json::Arr(a) => JsonV::Arr(
            Seq::new(
                a@.len(),
                |i: int|
                    if 0 <= i < a@.len() {
                        tree(a@[i])
                    } else {
                        JsonV::Null
                    },
            ),
        ),
        Json::Obj(m) => JsonV::Obj(
            Seq::new(
                m@.len(),
                |i: int|
                    if 0 <= i < m@.len() {
                        (m@[i].0@, tree(m@[i].1))
                    } else {
                        (Seq::empty(), JsonV::Null)
                    },
            ),
        ),
    }
}

impl View for Json {
    type V = JsonV;

    open spec fn view(&self) -> JsonV {
        tree(*self)
    }
}

/// The names stand in strictly ascending order.
pub open spec fn ascending(members: Seq<(Seq<char>, JsonV)>) -> bool {
    forall|i: int, j: int|
        0 <= i < j < members.len() ==> text::text_less(
            (#[trigger] members[i]).0,
            (#[trigger] members[j]).0,
        )
}

/// Every object in the value has its names in strictly ascending order.
pub open spec fn orderly(v: JsonV) -> bool
    decreases v,
{
    match v {
        JsonV::Arr(a) => forall|i: int| 0 <= i < a.len() ==> orderly(#[trigger] a[i]),
        JsonV::Obj(m) => ascending(m) && forall|i: int|
            0 <= i < m.len() ==> orderly((#[trigger] m[i]).1),
        _ => true,
    }
}

/// No number in the value is a fraction.
pub open spec fn whole(v: JsonV) -> bool
    decreases v,
{
    match v {
        JsonV::Float(_) => false,
        JsonV::Arr(a) => forall|i: int| 0 <= i < a.len() ==> whole(#[trigger] a[i]),
        JsonV::Obj(m) => forall|i: int| 0 <= i < m.len() ==> whole((#[trigger] m[i]).1),
        _ => true,
    }
}

/// The value has at most `n` containers inside each other.
pub open spec fn nested(v: JsonV, n: nat) -> bool
    decreases v,
{
    match v {
        JsonV::Arr(a) => n > 0 && forall|i: int|
            0 <= i < a.len() ==> nested(#[trigger] a[i], (n - 1) as nat),
        JsonV::Obj(m) => n > 0 && forall|i: int|
            0 <= i < m.len() ==> nested((#[trigger] m[i]).1, (n - 1) as nat),
        _ => true,
    }
}

/// The tree of a value of `serde_json`.
pub uninterp spec fn value_tree(v: serde_json::Value) -> JsonV;

/// The tree that `serde_json::from_str` reads out of a text, if the text is JSON.
pub uninterp spec fn parsed_json(s: Seq<char>) -> Option<JsonV>;

/// The text that `serde_json::to_string` writes for a tree.
pub uninterp spec fn compact_json(v: JsonV) -> Seq<char>;

/// The text that `serde_json::to_string_pretty` writes for a tree.
pub uninterp spec fn pretty_json(v: JsonV) -> Seq<char>;

/// `serde_json::from_str`: a function of the text alone.
#[verifier::external_body]
fn parse_value(s: &str) -> (r: Option<serde_json::Value>)
    ensures
        match r {
            Some(v) => parsed_json(s@) == Some(value_tree(v)),
            None => parsed_json(s@) is None,
        },
{
    serde_json::from_str(s).ok()
}

/// One node of a value of `serde_json`.
enum Node {
    Null,
    Bool(bool),
    Int(i64),
    Big(u64),
    Float(serde_json::Number),
    Str(String),
    Arr(Vec<serde_json::Value>),
    Obj(Vec<(String, serde_json::Value)>),
}

/// The trees of the values of an array.
spec fn item_trees(a: Seq<serde_json::Value>) -> Seq<JsonV> {
    Seq::new(a.len(), |i: int| value_tree(a[i]))
}

/// The names and trees of the members of an object.
spec fn member_trees(m: Seq<(String, serde_json::Value)>) -> Seq<(Seq<char>, JsonV)> {
    Seq::new(m.len(), |i: int| (m[i].0@, value_tree(m[i].1)))
}

/// The tree of a node.
spec fn node_tree(n: Node) -> JsonV {
    match n {
        Node::Null => JsonV::Null,
        Node::Bool(b) => JsonV::Bool(b),
        Node::Int(n) => JsonV::Int(n as int),
        Node::Big(n) => JsonV::Int(n as int),
        Node::Float(n) => JsonV::Float(n),
        Node::Str(s) => JsonV::Str(s@),
        Node::Arr(a) => JsonV::Arr(item_trees(a@)),
        Node::Obj(m) => JsonV::Obj(member_trees(m@)),
    }
}

/// Takes the outermost node of a `serde_json::Value` apart. An object keeps its members in a
/// `BTreeMap`, so that the names come in ascending order; a number that is an integer neither with
/// nor without a sign is a fraction.
#[verifier::external_body]
fn node_of(v: serde_json::Value) -> (r: Node)
    ensures
        node_tree(r) == value_tree(v),
        r matches Node::Obj(m) ==> ascending(member_trees(m@)),
        r matches Node::Float(n) ==> is_fraction(n),
{
    match v {
        serde_json::Value::Null => Node::Null,
        serde_json::Value::Bool(b) => Node::Bool(b),
        serde_json::Value::Number(n) => match (n.as_i64(), n.as_u64()) {
            (Some(i), _) => Node::Int(i),
            (None, Some(u)) => Node::Big(u),
            (None, None) => Node::Float(n),
        },
        serde_json::Value::String(s) => Node::Str(s),
        serde_json::Value::Array(a) => Node::Arr(a),
        serde_json::Value::Object(m) => Node::Obj(m.into_iter().collect()),
    }
}

/// Builds a `serde_json::Value` of one node. Names that ascend stay as they are in its `BTreeMap`.
#[verifier::external_body]
fn value_from(n: Node) -> (r: serde_json::Value)
    requires
        n matches Node::Obj(m) ==> ascending(member_trees(m@)),
        n matches Node::Float(x) ==> is_fraction(x),
    ensures
        value_tree(r) == node_tree(n),
{
    match n {
        Node::Null => serde_json::Value::Null,
        Node::Bool(b) => serde_json::Value::Bool(b),
        Node::Int(n) => serde_json::Value::Number(n.into()),
        Node::Big(n) => serde_json::Value::Number(n.into()),
        Node::Float(n) => serde_json::Value::Number(n),
        Node::Str(s) => serde_json::Value::String(s),
        Node::Arr(a) => serde_json::Value::Array(a),
        Node::Obj(m) => serde_json::Value::Object(m.into_iter().collect()),
    }
}

/// Takes a value of `serde_json` apart, node by node.
fn json_of(v: serde_json::Value) -> (r: Json)
    ensures
        r@ == value_tree(v),
        orderly(r@),
    decreases value_tree(v),
{
    let ghost t = value_tree(v);
    match node_of(v) {
        Node::Null => Json::Null,
        Node::Bool(b) => Json::Bool(b),
        Node::Int(n) => Json::Int(n),
        Node::Big(n) => Json::Big(n),
        Node::Float(number) => Json::Float(Fraction { number }),
        Node::Str(s) => Json::Str(s),
        Node::Arr(a) => {
            let mut from = a;
            let ghost all = item_trees(a@);
            let mut back: Vec<Json> = Vec::new();
            while from.len() > 0
                invariant
                    t == value_tree(v),
                    t == JsonV::Arr(all),
                    from@.len() + back@.len() == all.len(),
                    item_trees(from@) == all.take(from@.len() as int),
                    forall|i: int|
                        0 <= i < back@.len() ==> (#[trigger] back@[i])@ == all[all.len() - 1 - i]
                            && orderly(back@[i]@),
                decreases from@.len(),
            {
                let ghost n = from@.len() - 1;
                let ghost prev = item_trees(from@);
                if let Some(x) = from.pop() {
                    assert(prev[n] == value_tree(x));
                    assert(all[n] == prev[n]);
                    assert(item_trees(from@) =~= all.take(n));
                    assert(decreases_to!(t => t->Arr_0[n]));
                    back.push(json_of(x));
                }
            }
            let mut items: Vec<Json> = Vec::new();
            let ghost done = back@;
            while back.len() > 0
                invariant
                    done.len() == all.len(),
                    back@ == done.take(back@.len() as int),
                    items@.len() + back@.len() == all.len(),
                    forall|i: int|
                        0 <= i < done.len() ==> (#[trigger] done[i])@ == all[all.len() - 1 - i]
                            && orderly(done[i]@),
                    forall|i: int|
                        0 <= i < items@.len() ==> (#[trigger] items@[i])@ == all[i] && orderly(
                            items@[i]@,
                        ),
                decreases back@.len(),
            {
                let ghost n = back@.len() - 1;
                if let Some(x) = back.pop() {
                    assert(x == done[n]);
                    items.push(x);
                }
            }
            let r = Json::Arr(items);
            proof {
                lemma_views(r);
                assert(items_view(items@) =~= all);
                assert(orderly(r@));
            }
            r
        },
        Node::Obj(m) => {
            let mut from = m;
            let ghost all = member_trees(m@);
            let mut back: Vec<(String, Json)> = Vec::new();
            while from.len() > 0
                invariant
                    t == value_tree(v),
                    t == JsonV::Obj(all),
                    from@.len() + back@.len() == all.len(),
                    member_trees(from@) == all.take(from@.len() as int),
                    forall|i: int|
                        0 <= i < back@.len() ==> ((#[trigger] back@[i]).0@, back@[i].1@)
                            == all[all.len() - 1 - i] && orderly(back@[i].1@),
                decreases from@.len(),
            {
                let ghost n = from@.len() - 1;
                let ghost prev = member_trees(from@);
                if let Some((name, x)) = from.pop() {
                    assert(prev[n] == (name@, value_tree(x)));
                    assert(all[n] == prev[n]);
                    assert(member_trees(from@) =~= all.take(n));
                    assert(decreases_to!(t => t->Obj_0[n].1));
                    back.push((name, json_of(x)));
                }
            }
            let mut members: Vec<(String, Json)> = Vec::new();
            let ghost done = back@;
            while back.len() > 0
                invariant
                    done.len() == all.len(),
                    back@ == done.take(back@.len() as int),
                    members@.len() + back@.len() == all.len(),
                    forall|i: int|
                        0 <= i < done.len() ==> ((#[trigger] done[i]).0@, done[i].1@)
                            == all[all.len() - 1 - i] && orderly(done[i].1@),
                    forall|i: int|
                        0 <= i < members@.len() ==> ((#[trigger] members@[i]).0@, members@[i].1@)
                            == all[i] && orderly(members@[i].1@),
                decreases back@.len(),
            {
                let ghost n = back@.len() - 1;
                if let Some(x) = back.pop() {
                    assert(x == done[n]);
                    members.push(x);
                }
            }
            let r = Json::Obj(members);
            proof {
                lemma_views(r);
                assert(members_view(members@) =~= all);
                assert(orderly(r@));
            }
            r
        },
    }
}

proof fn lemma_orderly_item(a: Seq<JsonV>, i: int)
    requires
        orderly(JsonV::Arr(a)),
        0 <= i < a.len(),
    ensures
        orderly(a[i]),
{
    let v = JsonV::Arr(a);
    assert(orderly(v->Arr_0[i]));
}

/// Builds a value of `serde_json`, node by node.
fn value_of(j: &Json) -> (r: serde_json::Value)
    requires
        orderly(j@),
    ensures
        value_tree(r) == j@,
    decreases *j,
{
    proof {
        lemma_views(*j);
    }
    match j {
        Json::Null => value_from(Node::Null),
        Json::Bool(b) => value_from(Node::Bool(*b)),
        Json::Int(n) => value_from(Node::Int(*n)),
        Json::Big(n) => value_from(Node::Big(*n)),
        Json::Float(f) => {
            proof {
                use_type_invariant(f);
            }
            value_from(Node::Float(clone_number(&f.number)))
        },
        Json::Str(s) => value_from(Node::Str(s.clone())),
        Json::Arr(a) => {
            let ghost all = items_view(a@);
            let mut out: Vec<serde_json::Value> = Vec::new();
            let mut i: usize = 0;
            while i < a.len()
                invariant
                    i <= a@.len(),
                    *j matches Json::Arr(b) && b == *a,
                    all == items_view(a@),
                    j@ == JsonV::Arr(all),
                    orderly(j@),
                    item_trees(out@) == all.take(i as int),
                decreases a@.len() - i,
            {
                proof {
                    lemma_orderly_item(all, i as int);
                }
                let ghost prev = out@;
                out.push(value_of(&a[i]));
                assert(item_trees(out@) =~= item_trees(prev).push(all[i as int]));
                assert(all.take(i + 1) =~= all.take(i as int).push(all[i as int]));
                i = i + 1;
            }
            assert(all.take(i as int) =~= all);
            value_from(Node::Arr(out))
        },
        Json::Obj(m) => {
            let ghost all = members_view(m@);
            let mut out: Vec<(String, serde_json::Value)> = Vec::new();
            let mut i: usize = 0;
            while i < m.len()
                invariant
                    i <= m@.len(),
                    *j matches Json::Obj(b) && b == *m,
                    all == members_view(m@),
                    j@ == JsonV::Obj(all),
                    orderly(j@),
                    member_trees(out@) == all.take(i as int),
                decreases m@.len() - i,
            {
                assert(orderly(all[i as int].1));
                let ghost prev = out@;
                out.push((m[i].0.clone(), value_of(&m[i].1)));
                assert(member_trees(out@) =~= member_trees(prev).push(all[i as int]));
                assert(all.take(i + 1) =~= all.take(i as int).push(all[i as int]));
                i = i + 1;
            }
            assert(all.take(i as int) =~= all);
            value_from(Node::Obj(out))
        },
    }
}

/// `serde_json::to_string` on a value, which never fails: a function of the tree alone. Reading
/// the text gives the tree back, where no number is a fraction and the nesting stays below the
/// limit of the reader.
#[verifier::external_body]
fn compact_text(v: &serde_json::Value) -> (r: String)
    ensures
        r@ == compact_json(value_tree(*v)),
        whole(value_tree(*v)) && nested(value_tree(*v), 127) ==> parsed_json(r@) == Some(
            value_tree(*v),
        ),
{
    serde_json::to_string(v).unwrap()
}

/// `serde_json::to_string_pretty` on a value, which never fails: a function of the tree alone.
/// Reading the text gives the tree back, where no number is a fraction and the nesting stays below
/// the limit of the reader.
#[verifier::external_body]
fn pretty_text(v: &serde_json::Value) -> (r: String)
    ensures
        r@ == pretty_json(value_tree(*v)),
        whole(value_tree(*v)) && nested(value_tree(*v), 127) ==> parsed_json(r@) == Some(
            value_tree(*v),
        ),
{
    serde_json::to_string_pretty(v).unwrap()
}

/// The value of the first member with the given name.
pub open spec fn lookup(m: Seq<(Seq<char>, JsonV)>, key: Seq<char>) -> Option<JsonV>
    decreases m.len(),
{
    if m.len() == 0 {
        None
    } else if m[0].0 == key {
        Some(m[0].1)
    } else {
        lookup(m.subrange(1, m.len() as int), key)
    }
}

/// The member of an object; anything else has none.
pub open spec fn member(v: JsonV, key: Seq<char>) -> Option<JsonV> {
    match v {
        JsonV::Obj(m) => lookup(m, key),
        _ => None,
    }
}

/// The member of a member.
pub open spec fn member_of(v: Option<JsonV>, key: Seq<char>) -> Option<JsonV> {
    match v {
        Some(x) => member(x, key),
        None => None,
    }
}

/// The text of a string.
pub open spec fn text_of(v: Option<JsonV>) -> Option<Seq<char>> {
    match v {
        Some(JsonV::Str(s)) => Some(s),
        _ => None,
    }
}

/// The truth value of a boolean.
pub open spec fn bool_of(v: Option<JsonV>) -> Option<bool> {
    match v {
        Some(JsonV::Bool(b)) => Some(b),
        _ => None,
    }
}

/// The value of an integer that fits into 64 bits with a sign.
pub open spec fn signed_of(v: Option<JsonV>) -> Option<int> {
    match v {
        Some(JsonV::Int(n)) => if i64::MIN <= n <= i64::MAX {
            Some(n)
        } else {
            None
        },
        _ => None,
    }
}

/// The value of an integer that fits into 64 bits without a sign.
pub open spec fn unsigned_of(v: Option<JsonV>) -> Option<int> {
    match v {
        Some(JsonV::Int(n)) => if 0 <= n <= u64::MAX {
            Some(n)
        } else {
            None
        },
        _ => None,
    }
}

/// The view of an optional value.
pub open spec fn opt_json(v: Option<&Json>) -> Option<JsonV> {
    match v {
        Some(j) => Some(j@),
        None => None,
    }
}

/// The view of the members of an object.
pub open spec fn members_view(m: Seq<(String, Json)>) -> Seq<(Seq<char>, JsonV)> {
    Seq::new(m.len(), |i: int| (m[i].0@, tree(m[i].1)))
}

/// The view of the elements of an array.
pub open spec fn items_view(a: Seq<Json>) -> Seq<JsonV> {
    Seq::new(a.len(), |i: int| tree(a[i]))
}

/// The view of an array and of an object.
pub proof fn lemma_views(j: Json)
    ensures
        j matches Json::Arr(a) ==> j@ == JsonV::Arr(items_view(a@)),
        j matches Json::Obj(m) ==> j@ == JsonV::Obj(members_view(m@)),
{
    match j {
        Json::Arr(a) => {
            assert(j@->Arr_0 =~= items_view(a@));
        },
        Json::Obj(m) => {
            assert(j@->Obj_0 =~= members_view(m@));
        },
        _ => {},
    }
}

impl Json {
    /// Reads a JSON text.
    pub fn parse(s: &str) -> (r: Option<Json>)
        ensures
            match r {
                Some(j) => parsed_json(s@) == Some(j@) && orderly(j@),
                None => parsed_json(s@) is None,
            },
    {
        match parse_value(s) {
            Some(v) => Some(json_of(v)),
            None => None,
        }
    }

    /// Writes the value in one line.
    pub fn to_compact(&self) -> (r: String)
        requires
            orderly(self@),
        ensures
            r@ == compact_json(self@),
            whole(self@) && nested(self@, 127) ==> parsed_json(r@) == Some(self@),
    {
        compact_text(&value_of(self))
    }

    /// Writes the value indented.
    pub fn to_pretty(&self) -> (r: String)
        requires
            orderly(self@),
        ensures
            r@ == pretty_json(self@),
            whole(self@) && nested(self@, 127) ==> parsed_json(r@) == Some(self@),
    {
        pretty_text(&value_of(self))
    }

    /// The member of an object.
    pub fn get(&self, key: &str) -> (r: Option<&Json>)
        ensures
            opt_json(r) == member(self@, key@),
            orderly(self@) ==> (r matches Some(j) ==> orderly(j@)),
    {
        proof {
            lemma_views(*self);
        }
        match self {
            Json::Obj(m) => {
                let mut i: usize = 0;
                let ghost all = members_view(m@);
                assert(all.subrange(0, all.len() as int) == all);
                while i < m.len()
                    invariant
                        i <= m@.len(),
                        all == members_view(m@),
                        self@ == JsonV::Obj(all),
                        lookup(all, key@) == lookup(all.subrange(i as int, all.len() as int), key@),
                    decreases m@.len() - i,
                {
                    if text::same_text(m[i].0.as_str(), key) {
                        assert(orderly(self@) ==> orderly(all[i as int].1));
                        return Some(&m[i].1);
                    }
                    assert(all.subrange(i as int, all.len() as int).subrange(1, all.len() - i)
                        == all.subrange(i + 1, all.len() as int));
                    i = i + 1;
                }
                None
            },
            _ => None,
        }
    }

    /// The text of a string.
    pub fn as_text(&self) -> (r: Option<&String>)
        ensures
            match r {
                Some(s) => text_of(Some(self@)) == Some(s@),
                None => text_of(Some(self@)) is None,
            },
    {
        match self {
            Json::Str(s) => Some(s),
            _ => None,
        }
    }

    /// The truth value of a boolean.
    pub fn as_bool(&self) -> (r: Option<bool>)
        ensures
            r == bool_of(Some(self@)),
    {
        match self {
            Json::Bool(b) => Some(*b),
            _ => None,
        }
    }

    /// The value of an integer that fits into 64 bits with a sign.
    pub fn as_signed(&self) -> (r: Option<i64>)
        ensures
            match r {
                Some(n) => signed_of(Some(self@)) == Some(n as int),
                None => signed_of(Some(self@)) is None,
            },
    {
        match self {
            Json::Int(n) => Some(*n),
            Json::Big(n) => if *n <= i64::MAX as u64 {
                Some(*n as i64)
            } else {
                None
            },
            _ => None,
        }
    }

    /// The value of an integer that fits into 64 bits without a sign.
    pub fn as_unsigned(&self) -> (r: Option<u64>)
        ensures
            match r {
                Some(n) => unsigned_of(Some(self@)) == Some(n as int),
                None => unsigned_of(Some(self@)) is None,
            },
    {
        match self {
            Json::Int(n) => if *n >= 0 {
                Some(*n as u64)
            } else {
                None
            },
            Json::Big(n) => Some(*n),
            _ => None,
        }
    }
}

/// `serde_json::Number::clone`: an equal number.
#[verifier::external_body]
fn clone_number(n: &serde_json::Number) -> (r: serde_json::Number)
    ensures
        r == *n,
{
    n.clone()
}

/// The members of an object with one set to a value: in its place where it is there, or else
/// before the first one with a greater name.
pub open spec fn with_member(m: Seq<(Seq<char>, JsonV)>, key: Seq<char>, v: JsonV) -> Seq<
    (Seq<char>, JsonV),
>
    decreases m.len(),
{
    if m.len() == 0 {
        seq![(key, v)]
    } else if m[0].0 == key {
        m.update(0, (key, v))
    } else if text::text_less(key, m[0].0) {
        seq![(key, v)] + m
    } else {
        seq![m[0]] + with_member(m.subrange(1, m.len() as int), key, v)
    }
}

/// Sets a member of an object.
pub fn set_member(m: &mut Vec<(String, Json)>, key: String, v: Json)
    ensures
        members_view(final(m)@) == with_member(members_view(old(m)@), key@, v@),
{
    let ghost start = members_view(m@);
    let mut i: usize = 0;
    assert(start.subrange(0, start.len() as int) == start);
    assert(start.take(0) + with_member(start, key@, v@) == with_member(start, key@, v@));
    while i < m.len()
        invariant
            i <= m@.len(),
            m@ == old(m)@,
            start == members_view(m@),
            with_member(start, key@, v@) == start.take(i as int) + with_member(
                start.subrange(i as int, start.len() as int),
                key@,
                v@,
            ),
        decreases m@.len() - i,
    {
        let ghost rest = start.subrange(i as int, start.len() as int);
        let ghost tv = v@;
        if text::same_text(m[i].0.as_str(), key.as_str()) {
            let ghost k = key@;
            m.set(i, (key, v));
            assert(members_view(m@) == start.take(i as int) + rest.update(0, (k, tv)));
            return;
        }
        if text::text_comes_before(key.as_str(), m[i].0.as_str()) {
            let ghost k = key@;
            m.insert(i, (key, v));
            assert(members_view(m@) == start.take(i as int) + (seq![(k, tv)] + rest));
            return;
        }
        proof {
            let next = start.subrange(i + 1, start.len() as int);
            assert(rest.subrange(1, rest.len() as int) == next);
            assert(start.take(i as int) + (seq![rest[0]] + with_member(next, key@, v@))
                == start.take(i + 1) + with_member(next, key@, v@));
        }
        i = i + 1;
    }
    let ghost k = key@;
    let ghost tv = v@;
    m.push((key, v));
    assert(members_view(m@) == start.take(i as int) + seq![(k, tv)]);
}

/// A member that was set is found, and all others are what they were.
pub proof fn lemma_with_member(m: Seq<(Seq<char>, JsonV)>, key: Seq<char>, v: JsonV, other: Seq<char>)
    requires
        ascending(m),
    ensures
        lookup(with_member(m, key, v), key) == Some(v),
        other != key ==> lookup(with_member(m, key, v), other) == lookup(m, other),
    decreases m.len(),
{
    let w = with_member(m, key, v);
    if m.len() == 0 {
        assert(w.subrange(1, 1) =~= m);
    } else {
        let rest = m.subrange(1, m.len() as int);
        assert(ascending(rest)) by {
            assert forall|i: int, j: int| 0 <= i < j < rest.len() implies text::text_less(
                (#[trigger] rest[i]).0,
                (#[trigger] rest[j]).0,
            ) by {
                assert(text::text_less(m[i + 1].0, m[j + 1].0));
            }
        }
        if m[0].0 == key {
            assert(w.subrange(1, w.len() as int) =~= rest);
        } else if text::text_less(key, m[0].0) {
            assert(w.subrange(1, w.len() as int) =~= m);
        } else {
            lemma_with_member(rest, key, v, other);
            assert(w.subrange(1, w.len() as int) =~= with_member(rest, key, v));
        }
    }
}

/// Setting a member keeps the names in ascending order.
pub proof fn lemma_with_member_ascends(m: Seq<(Seq<char>, JsonV)>, key: Seq<char>, v: JsonV)
    requires
        ascending(m),
    ensures
        ascending(with_member(m, key, v)),
        forall|i: int|
            0 <= i < with_member(m, key, v).len() ==> (#[trigger] with_member(m, key, v)[i]) == (
                key,
                v,
            ) || m.contains(with_member(m, key, v)[i]),
    decreases m.len(),
{
    let w = with_member(m, key, v);
    if m.len() > 0 {
        let rest = m.subrange(1, m.len() as int);
        assert(ascending(rest)) by {
            assert forall|i: int, j: int| 0 <= i < j < rest.len() implies text::text_less(
                (#[trigger] rest[i]).0,
                (#[trigger] rest[j]).0,
            ) by {
                assert(text::text_less(m[i + 1].0, m[j + 1].0));
            }
        }
        if m[0].0 == key {
            assert forall|i: int, j: int| 0 <= i < j < w.len() implies text::text_less(
                (#[trigger] w[i]).0,
                (#[trigger] w[j]).0,
            ) by {
                assert(text::text_less(m[i].0, m[j].0));
            }
            assert forall|i: int| 0 <= i < w.len() implies (#[trigger] w[i]) == (key, v)
                || m.contains(w[i]) by {
                if i > 0 {
                    assert(m[i] == w[i]);
                }
            }
        } else if text::text_less(key, m[0].0) {
            assert forall|i: int, j: int| 0 <= i < j < w.len() implies text::text_less(
                (#[trigger] w[i]).0,
                (#[trigger] w[j]).0,
            ) by {
                if i > 0 {
                    assert(text::text_less(m[i - 1].0, m[j - 1].0));
                } else if j > 1 {
                    assert(text::text_less(m[0].0, m[j - 1].0));
                    text::lemma_text_order_transitive(key, m[0].0, m[j - 1].0);
                }
            }
            assert forall|i: int| 0 <= i < w.len() implies (#[trigger] w[i]) == (key, v)
                || m.contains(w[i]) by {
                if i > 0 {
                    assert(m[i - 1] == w[i]);
                }
            }
        } else {
            let tail = with_member(rest, key, v);
            lemma_with_member_ascends(rest, key, v);
            text::lemma_text_order_total(key, m[0].0);
            assert forall|i: int, j: int| 0 <= i < j < w.len() implies text::text_less(
                (#[trigger] w[i]).0,
                (#[trigger] w[j]).0,
            ) by {
                if i > 0 {
                    assert(text::text_less(tail[i - 1].0, tail[j - 1].0));
                } else {
                    assert(w[j] == tail[j - 1]);
                    if tail[j - 1] != (key, v) {
                        assert(rest.contains(tail[j - 1]));
                        let k = choose|k: int| 0 <= k < rest.len() && rest[k] == tail[j - 1];
                        assert(text::text_less(m[0].0, m[k + 1].0));
                    }
                }
            }
            assert forall|i: int| 0 <= i < w.len() implies (#[trigger] w[i]) == (key, v)
                || m.contains(w[i]) by {
                if i == 0 {
                    assert(m[0] == w[0]);
                } else {
                    assert(w[i] == tail[i - 1]);
                    if tail[i - 1] != (key, v) {
                        let k = choose|k: int| 0 <= k < rest.len() && rest[k] == tail[i - 1];
                        assert(m[k + 1] == w[i]);
                    }
                }
            }
        }
    }
}

} // verus!
