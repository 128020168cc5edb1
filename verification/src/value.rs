use vstd::prelude::*;

verus! {

/// Mathematical model of a structured wire value: the payload shape that
/// travels through the dispatch bridge. Text is carried as UTF-8 bytes.
#[verifier::ext_equal]
pub ghost enum JVal {
    Null,
    Bool(bool),
    UInt(u64),
    Str(Seq<u8>),
    Arr(Seq<JVal>),
    Obj(Seq<(Seq<u8>, JVal)>),
}

/// Executable structured wire value. Strings are UTF-8 byte strings; numbers
/// are unsigned 64-bit integers (the widest the protocol's fields need).
pub enum JsonValue {
    Null,
    Bool(bool),
    UInt(u64),
    Str(Vec<u8>),
    Arr(Vec<JsonValue>),
    Obj(Vec<(Vec<u8>, JsonValue)>),
}

impl JsonValue {
    pub open spec fn deep(self) -> JVal
        decreases self,
    {
        match self {
            JsonValue::Null => JVal::Null,
            JsonValue::Bool(b) => JVal::Bool(b),
            JsonValue::UInt(n) => JVal::UInt(n),
            JsonValue::Str(s) => JVal::Str(s@),
            JsonValue::Arr(vs) => JVal::Arr(Self::deep_seq(vs@)),
            JsonValue::Obj(fs) => JVal::Obj(Self::deep_fields(fs@)),
        }
    }

    pub open spec fn deep_seq(vs: Seq<JsonValue>) -> Seq<JVal>
        decreases vs,
    {
        if vs.len() == 0 {
            Seq::empty()
        } else {
            seq![vs[0].deep()] + Self::deep_seq(vs.subrange(1, vs.len() as int))
        }
    }

    pub open spec fn deep_fields(fs: Seq<(Vec<u8>, JsonValue)>) -> Seq<(Seq<u8>, JVal)>
        decreases fs,
    {
        if fs.len() == 0 {
            Seq::empty()
        } else {
            seq![(fs[0].0@, fs[0].1.deep())] + Self::deep_fields(fs.subrange(1, fs.len() as int))
        }
    }
}

impl View for JsonValue {
    type V = JVal;

    open spec fn view(&self) -> JVal {
        self.deep()
    }
}

/// `deep_seq` read element by element.
pub proof fn lemma_deep_seq_index(vs: Seq<JsonValue>)
    ensures
        JsonValue::deep_seq(vs).len() == vs.len(),
        forall|i: int| 0 <= i < vs.len() ==> #[trigger] JsonValue::deep_seq(vs)[i] == vs[i].deep(),
    decreases vs,
{
    if vs.len() > 0 {
        lemma_deep_seq_index(vs.subrange(1, vs.len() as int));
    }
}

/// `deep_fields` read element by element.
pub proof fn lemma_deep_fields_index(fs: Seq<(Vec<u8>, JsonValue)>)
    ensures
        JsonValue::deep_fields(fs).len() == fs.len(),
        forall|i: int| 0 <= i < fs.len() ==> #[trigger] JsonValue::deep_fields(fs)[i]
            == (fs[i].0@, fs[i].1.deep()),
    decreases fs,
{
    if fs.len() > 0 {
        lemma_deep_fields_index(fs.subrange(1, fs.len() as int));
    }
}

} // verus!
