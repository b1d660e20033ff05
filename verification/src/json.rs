//! JSON documents, as the request bodies are built.

use vstd::prelude::*;

verus! {

#[derive(Debug)]
pub enum Json {
    Null,
    Bool(bool),
    Unsigned(u64),
    Signed(i64),
    Text(String),
    List(Vec<Json>),
    Object(Vec<(String, Json)>),
}

/// A document as a value; an object keeps its fields in the order they were given.
pub enum JsonView {
    Null,
    Bool(bool),
    Number(int),
    Text(Seq<char>),
    List(Seq<JsonView>),
    Object(Seq<(Seq<char>, JsonView)>),
}

impl View for Json {
    type V = JsonView;

    open spec fn view(&self) -> JsonView {
        self.tree()
    }
}

impl Json {
    pub open spec fn tree(self) -> JsonView
        decreases self,
    {
        match self {
            Json::Null => JsonView::Null,
            Json::Bool(value) => JsonView::Bool(value),
            Json::Unsigned(value) => JsonView::Number(value as int),
            Json::Signed(value) => JsonView::Number(value as int),
            Json::Text(value) => JsonView::Text(value@),
            Json::List(items) => JsonView::List(
                Seq::new(
                    items@.len(),
                    |i: int|
                        if 0 <= i < items@.len() {
                            items@[i].tree()
                        } else {
                            JsonView::Null
                        },
                ),
            ),
            Json::Object(fields) => JsonView::Object(
                Seq::new(
                    fields@.len(),
                    |i: int|
                        if 0 <= i < fields@.len() {
                            (fields@[i].0@, fields@[i].1.tree())
                        } else {
                            (Seq::empty(), JsonView::Null)
                        },
                ),
            ),
        }
    }
}

/// The documents as values, in order.
pub open spec fn trees(items: Seq<Json>) -> Seq<JsonView> {
    items.map_values(|item: Json| item@)
}

impl Json {
    pub fn text(value: &str) -> (res: Json)
        ensures
            res@ == JsonView::Text(value@),
    {
        Json::Text(value.to_owned())
    }

    pub fn flag(value: bool) -> (res: Json)
        ensures
            res@ == JsonView::Bool(value),
    {
        Json::Bool(value)
    }

    pub fn unsigned(value: u64) -> (res: Json)
        ensures
            res@ == JsonView::Number(value as int),
    {
        Json::Unsigned(value)
    }

    pub fn signed(value: i64) -> (res: Json)
        ensures
            res@ == JsonView::Number(value as int),
    {
        Json::Signed(value)
    }

    pub fn list(items: Vec<Json>) -> (res: Json)
        ensures
            res@ == JsonView::List(trees(items@)),
    {
        let ghost values = items@;
        let res = Json::List(items);
        proof {
            assert(res@->List_0 =~= trees(values));
        }
        res
    }

    /// A list of one document.
    pub fn single(item: Json) -> (res: Json)
        ensures
            res@ == JsonView::List(seq![item@]),
    {
        let mut items: Vec<Json> = Vec::new();
        let ghost value = item@;
        items.push(item);
        let res = Json::list(items);
        proof {
            assert(res@->List_0 =~= seq![value]);
        }
        res
    }
}

/// The fields of an object that is being written.
pub struct Fields {
    fields: Vec<(String, Json)>,
}

impl View for Fields {
    type V = Seq<(Seq<char>, JsonView)>;

    closed spec fn view(&self) -> Seq<(Seq<char>, JsonView)> {
        self.fields@.map_values(|field: (String, Json)| (field.0@, field.1@))
    }
}

impl Fields {
    pub fn new() -> (res: Fields)
        ensures
            res@ == Seq::<(Seq<char>, JsonView)>::empty(),
    {
        let res = Fields { fields: Vec::new() };
        proof {
            assert(res@ =~= Seq::<(Seq<char>, JsonView)>::empty());
        }
        res
    }

    /// The fields with one more at the end.
    pub fn with(self, key: &str, value: Json) -> (res: Fields)
        ensures
            res@ == self@.push((key@, value@)),
    {
        let ghost before = self@;
        let ghost item = (key@, value@);
        let mut fields = self.fields;
        fields.push((key.to_owned(), value));
        let res = Fields { fields };
        proof {
            assert(res@ =~= before.push(item));
        }
        res
    }

    pub fn object(self) -> (res: Json)
        ensures
            res@ == JsonView::Object(self@),
    {
        let ghost before = self@;
        let res = Json::Object(self.fields);
        proof {
            assert(res@->Object_0 =~= before);
        }
        res
    }
}

/// The object holds the key once, and this value under it.
pub open spec fn has_field(document: JsonView, key: Seq<char>, value: JsonView) -> bool {
    &&& document is Object
    &&& exists|i: int|
        0 <= i < document->Object_0.len() && #[trigger] document->Object_0[i] == (key, value)
    &&& forall|i: int, j: int|
        0 <= i < document->Object_0.len() && 0 <= j < document->Object_0.len()
            && (#[trigger] document->Object_0[i]).0 == key && (
        #[trigger] document->Object_0[j]).0 == key ==> i == j
}

/// The object does not hold the key.
pub open spec fn lacks_field(document: JsonView, key: Seq<char>) -> bool {
    &&& document is Object
    &&& forall|i: int|
        0 <= i < document->Object_0.len() ==> (#[trigger] document->Object_0[i]).0 != key
}

/// No key occurs twice.
pub open spec fn keys_differ(fields: Seq<(Seq<char>, JsonView)>) -> bool {
    forall|i: int, j: int|
        0 <= i < j < fields.len() ==> (#[trigger] fields[i]).0 != (#[trigger] fields[j]).0
}

/// Where no key occurs twice, every field is the one under its key.
pub proof fn lemma_fields(fields: Seq<(Seq<char>, JsonView)>)
    requires
        keys_differ(fields),
    ensures
        forall|i: int|
            0 <= i < fields.len() ==> has_field(
                JsonView::Object(fields),
                (#[trigger] fields[i]).0,
                fields[i].1,
            ),
{
    assert forall|i: int| 0 <= i < fields.len() implies has_field(
        JsonView::Object(fields),
        (#[trigger] fields[i]).0,
        fields[i].1,
    ) by {
        let document = JsonView::Object(fields);
        assert(document->Object_0[i] == (fields[i].0, fields[i].1));
        assert forall|a: int, b: int|
            0 <= a < fields.len() && 0 <= b < fields.len() && (#[trigger] fields[a]).0
                == fields[i].0 && (#[trigger] fields[b]).0 == fields[i].0 implies a == b by {
            if a < b {
                assert(fields[a].0 != fields[b].0);
            } else if b < a {
                assert(fields[b].0 != fields[a].0);
            }
        }
    }
}

/// A document reads as what it is: a text as its characters, a number as its value,
/// a list as its items and an object as its fields, all of them in order.
pub proof fn law_a_document_reads_as_it_is(document: Json)
    ensures
        match document {
            Json::Null => document@ == JsonView::Null,
            Json::Bool(value) => document@ == JsonView::Bool(value),
            Json::Unsigned(value) => document@ == JsonView::Number(value as int),
            Json::Signed(value) => document@ == JsonView::Number(value as int),
            Json::Text(value) => document@ == JsonView::Text(value@),
            Json::List(items) => {
                &&& document@ is List
                &&& document@->List_0.len() == items@.len()
                &&& forall|i: int|
                    0 <= i < items@.len() ==> #[trigger] document@->List_0[i] == items@[i]@
            },
            Json::Object(fields) => {
                &&& document@ is Object
                &&& document@->Object_0.len() == fields@.len()
                &&& forall|i: int|
                    0 <= i < fields@.len() ==> #[trigger] document@->Object_0[i] == (
                        fields@[i].0@,
                        fields@[i].1@,
                    )
            },
        },
{
}

} // verus!
