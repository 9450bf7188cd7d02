use crate::error::AsimovError;
use crate::render::i64_dec;
use crate::render::i64_to_string;
use vstd::prelude::*;
use vstd::string::StringExecFns;

verus! {

/// What `twox_hash`'s 64-bit hasher returns for a text, fed with the
/// default seed through std's string hashing: a function of the text alone.
pub uninterp spec fn xxhash64_of(s: Seq<char>) -> u64;

/// Relies on twox_hash::XxHash64: seeded with the default seed and fed the
/// text through std's `Hash` for `String`, the finished hash is a function
/// of the text alone.
#[verifier::external_body]
pub(crate) fn hash_string(s: &String) -> (r: u64)
    ensures
        r == xxhash64_of(s@),
{
    let mut h = twox_hash::XxHash64::default();
    core::hash::Hash::hash(s, &mut h);
    core::hash::Hasher::finish(&h)
}

/// True when the rendering call on the value could return this text.
pub open spec fn renders_to<T: Input>(x: T, t: String) -> bool {
    call_ensures(T::render, (&x,), Ok(t))
}

/// True when the rendering call on the value could fail with this error.
pub open spec fn render_fails<T: Input>(x: T, e: AsimovError) -> bool {
    call_ensures(T::render, (&x,), Err(e))
}

/// True when rendering the item's key could return this text: the text the
/// store derives the item's content id from.
pub open spec fn key_renders_to<I: Embeddable>(item: I, t: String) -> bool {
    exists|k: I::Key|
        #[trigger] call_ensures(I::key, (&item,), &k) && call_ensures(
            <I::Key as Input>::render,
            (&k,),
            Ok(t),
        )
}

/// True when rendering the item's key could fail with this error.
pub open spec fn key_render_fails<I: Embeddable>(item: I, e: AsimovError) -> bool {
    exists|k: I::Key|
        #[trigger] call_ensures(I::key, (&item,), &k) && call_ensures(
            <I::Key as Input>::render,
            (&k,),
            Err(e),
        )
}

/// The texts of a list of renderings, concatenated in order.
pub open spec fn concat_renderings(ts: Seq<String>) -> Seq<char>
    decreases ts.len(),
{
    if ts.len() == 0 {
        Seq::<char>::empty()
    } else {
        concat_renderings(ts.drop_last()) + ts.last()@
    }
}

/// `Input` represents any object that can be handed to a language model as
/// input: it renders to text.
pub trait Input {
    /// A string representation of the value suitable for embedding.
    fn render(&self) -> Result<String, AsimovError>;

    /// A 64-bit identity for the input, derived from the rendered text
    /// alone, so equal renderings always give the same identity; a
    /// rendering failure is handed back unchanged.
    fn hash(&self) -> (r: Result<u64, AsimovError>)
        ensures
            r is Ok ==> exists|t: String|
                #[trigger] call_ensures(Self::render, (self,), Ok(t)) && r->Ok_0 == xxhash64_of(
                    t@,
                ),
            r is Err ==> call_ensures(Self::render, (self,), Err(r->Err_0)),
    {
        let s = match self.render() {
            Ok(s) => s,
            Err(e) => {
                return Err(e);
            },
        };
        Ok(hash_string(&s))
    }
}

/// `Embeddable` represents an object that can be stored in a vector space:
/// it renders to text and exposes a key sub-object used for identity. An
/// object without a distinct key is its own key.
pub trait Embeddable: Input {
    type Key: Input;

    fn key(&self) -> &Self::Key;
}

impl Input for String {
    fn render(&self) -> (r: Result<String, AsimovError>)
        ensures
            r is Ok && r->Ok_0@ == self@,
    {
        Ok(String::from_str(self.as_str()))
    }
}

impl Embeddable for String {
    type Key = String;

    fn key(&self) -> (k: &String)
        ensures
            k == self,
    {
        self
    }
}

impl Input for bool {
    fn render(&self) -> (r: Result<String, AsimovError>)
        ensures
            r is Ok,
            *self ==> r->Ok_0@ == "true"@,
            !*self ==> r->Ok_0@ == "false"@,
    {
        if *self {
            Ok(String::from_str("true"))
        } else {
            Ok(String::from_str("false"))
        }
    }
}

impl Input for i32 {
    fn render(&self) -> (r: Result<String, AsimovError>)
        ensures
            r is Ok && r->Ok_0@ == i64_dec(*self as int),
    {
        Ok(i64_to_string(*self as i64))
    }
}

impl Input for i64 {
    fn render(&self) -> (r: Result<String, AsimovError>)
        ensures
            r is Ok && r->Ok_0@ == i64_dec(*self as int),
    {
        Ok(i64_to_string(*self))
    }
}

impl<T: Input> Input for &T {
    fn render(&self) -> Result<String, AsimovError> {
        (*self).render()
    }
}

impl<T: Input> Input for Vec<T> {
    /// The renderings of the elements, concatenated in order; an element's
    /// rendering failure aborts the whole rendering and is handed back
    /// unchanged.
    fn render(&self) -> (r: Result<String, AsimovError>)
        ensures
            r is Ok ==> exists|ts: Seq<String>|
                {
                    &&& ts.len() == self@.len()
                    &&& (forall|j: int|
                        0 <= j < ts.len() ==> renders_to(self@[j], #[trigger] ts[j]))
                    &&& r->Ok_0@ == #[trigger] concat_renderings(ts)
                },
            r is Err ==> exists|j: int|
                0 <= j < self@.len() && render_fails(#[trigger] self@[j], r->Err_0),
    {
        let mut s = String::new();
        let ghost mut ts: Seq<String> = Seq::empty();
        let mut i: usize = 0;
        while i < self.len()
            invariant
                i <= self@.len(),
                ts.len() == i,
                forall|j: int| 0 <= j < i ==> renders_to(self@[j], #[trigger] ts[j]),
                s@ == concat_renderings(ts),
            decreases self.len() - i,
        {
            match self[i].render() {
                Ok(part) => {
                    s.append(part.as_str());
                    proof {
                        let ts0 = ts;
                        ts = ts0.push(part);
                        assert(ts.drop_last() =~= ts0);
                        assert(ts.last() == part);
                    }
                },
                Err(e) => {
                    return Err(e);
                },
            }
            i = i + 1;
        }
        Ok(s)
    }
}

impl<T: Input> Input for Option<T> {
    /// The rendering of the value when present, and empty text otherwise;
    /// the value's rendering failure is handed back unchanged.
    fn render(&self) -> (r: Result<String, AsimovError>)
        ensures
            self is None ==> r is Ok && r->Ok_0@ == Seq::<char>::empty(),
            self is Some && r is Ok ==> renders_to(self->Some_0, r->Ok_0),
            self is Some && r is Err ==> render_fails(self->Some_0, r->Err_0),
    {
        match self {
            Some(v) => {
                let r = v.render();
                proof {
                    assert(*v == self->Some_0);
                    if r is Ok {
                        assert(renders_to(*v, r->Ok_0));
                    } else {
                        assert(render_fails(*v, r->Err_0));
                    }
                }
                r
            },
            None => Ok(String::new()),
        }
    }
}

#[verifier::external_type_specification]
#[verifier::external_body]
pub struct ExValue(serde_json::Value);

#[verifier::external_type_specification]
#[verifier::external_body]
pub struct ExJsonError(serde_json::Error);

/// What serde_json's pretty printer returns for a JSON value: a function of
/// the value alone.
pub uninterp spec fn json_pretty_of(v: serde_json::Value) -> Seq<char>;

/// Relies on serde_json::to_string_pretty: for a `Value` the rendering is a
/// function of the value alone.
#[verifier::external_body]
fn value_to_pretty(v: &serde_json::Value) -> (r: Result<String, serde_json::Error>)
    ensures
        r is Ok ==> r->Ok_0@ == json_pretty_of(*v),
{
    serde_json::to_string_pretty(v)
}

impl Input for serde_json::Value {
    /// The pretty-printed JSON text of the value.
    fn render(&self) -> (r: Result<String, AsimovError>)
        ensures
            r is Ok ==> r->Ok_0@ == json_pretty_of(*self),
            r is Err ==> r->Err_0 is Input,
    {
        match value_to_pretty(self) {
            Ok(s) => Ok(s),
            Err(e) => Err(AsimovError::Input(e.to_string())),
        }
    }
}

impl Embeddable for serde_json::Value {
    type Key = serde_json::Value;

    fn key(&self) -> (k: &serde_json::Value)
        ensures
            k == self,
    {
        self
    }
}

impl Input for &str {
    fn render(&self) -> (r: Result<String, AsimovError>)
        ensures
            r is Ok && r->Ok_0@ == self@,
    {
        Ok(String::from_str(self))
    }
}

impl Input for Box<&str> {
    fn render(&self) -> (r: Result<String, AsimovError>)
        ensures
            r is Ok && r->Ok_0@ == (**self)@,
    {
        Ok(String::from_str(self))
    }
}

} // verus!
