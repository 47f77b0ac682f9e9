//! The packer interface: how a payload becomes a request body, and a
//! response body a value.

use vstd::prelude::*;
use crate::error::ArtfulError;
use crate::json::{JsonMap, JsonValue, JsonView};
use crate::query::{QueryPacker, form_content_type, query_pack_spec, query_unpack_spec};
use crate::xml::{XmlPacker, nested_value_message, opt_text, xml_content_type, xml_pack_spec, xml_unpack_spec};

verus! {

/// The text of an optional static string.
pub open spec fn opt_str(t: Option<&'static str>) -> Option<Seq<char>> {
    match t {
        Some(s) => Some(s@),
        None => None,
    }
}

/// A packing result as plain values: the text, or the error.
pub open spec fn text_outcome(r: Result<String, ArtfulError>) -> Result<Seq<char>, ArtfulError> {
    match r {
        Ok(t) => Ok(t@),
        Err(e) => Err(e),
    }
}

/// An unpacking result as plain values: the value, or the error.
pub open spec fn value_outcome(r: Result<JsonValue, ArtfulError>) -> Result<JsonView, ArtfulError> {
    match r {
        Ok(v) => Ok(v@),
        Err(e) => Err(e),
    }
}

/// Serializes a payload into a request body and reads a response body back.
///
/// Each method's result is related to its arguments by a spec function
/// that a packer may define: a packer that defines none states nothing
/// (every outcome is related), one that does pins what it gives.
pub trait Packer {
    /// Whether `pack` may give `outcome` (the text, or the error) for
    /// `data` and `params`.
    open spec fn pack_gives(
        &self,
        data: Seq<(Seq<char>, JsonView)>,
        params: Seq<(Seq<char>, JsonView)>,
        outcome: Result<Seq<char>, ArtfulError>,
    ) -> bool {
        true
    }

    /// Whether `unpack` may give `outcome` (the value, or the error) for
    /// `data` and `params`.
    open spec fn unpack_gives(
        &self,
        data: Seq<char>,
        params: Seq<(Seq<char>, JsonView)>,
        outcome: Result<JsonView, ArtfulError>,
    ) -> bool {
        true
    }

    /// Whether the packer may declare `content_type`.
    open spec fn declares(&self, content_type: Option<Seq<char>>) -> bool {
        true
    }

    /// Writes `data` as a body; `params` are the packer's own options.
    fn pack(&self, data: &JsonMap, params: &JsonMap) -> (r: Result<String, ArtfulError>)
        ensures
            self.pack_gives(data@, params@, text_outcome(r)),
    ;

    /// Reads a body into a value; `params` are the packer's own options.
    fn unpack(&self, data: &str, params: &JsonMap) -> (r: Result<JsonValue, ArtfulError>)
        ensures
            self.unpack_gives(data@, params@, value_outcome(r)),
    ;

    /// The Content-Type of what `pack` writes, if the packer declares one.
    fn content_type(&self) -> (r: Option<&'static str>)
        ensures
            self.declares(opt_str(r)),
    ;
}

/// The object a typed value was written as, for packing; any other value is
/// an invalid `data` parameter, whose message says that it must be written
/// as a JSON object.
pub fn typed_object(value: JsonValue) -> (r: Result<JsonMap, ArtfulError>)
    ensures
        match value@ {
            JsonView::Object(o) => r matches Ok(m) && m@ == o,
            _ => r matches Err(ArtfulError::InvalidParameter { param, message }) && param@ == "data"@
                && message@ == "pack_typed 要求 T 序列化为 JSON 对象"@,
        },
{
    match value {
        JsonValue::Object(m) => Ok(m),
        _ => {
            let param = "data";
            let message = "pack_typed 要求 T 序列化为 JSON 对象";
            Err(ArtfulError::InvalidParameter { param: param.to_owned(), message: message.to_owned() })
        },
    }
}

impl Packer for QueryPacker {
    open spec fn pack_gives(
        &self,
        data: Seq<(Seq<char>, JsonView)>,
        params: Seq<(Seq<char>, JsonView)>,
        outcome: Result<Seq<char>, ArtfulError>,
    ) -> bool {
        outcome == Ok::<Seq<char>, ArtfulError>(query_pack_spec(data))
    }

    open spec fn unpack_gives(
        &self,
        data: Seq<char>,
        params: Seq<(Seq<char>, JsonView)>,
        outcome: Result<JsonView, ArtfulError>,
    ) -> bool {
        outcome == Ok::<JsonView, ArtfulError>(query_unpack_spec(data, params))
    }

    open spec fn declares(&self, content_type: Option<Seq<char>>) -> bool {
        content_type == Some(form_content_type())
    }

    fn pack(&self, data: &JsonMap, params: &JsonMap) -> (r: Result<String, ArtfulError>) {
        QueryPacker::pack(self, data, params)
    }

    fn unpack(&self, data: &str, params: &JsonMap) -> (r: Result<JsonValue, ArtfulError>) {
        QueryPacker::unpack(self, data, params)
    }

    fn content_type(&self) -> (r: Option<&'static str>) {
        QueryPacker::content_type(self)
    }
}

impl Packer for XmlPacker {
    open spec fn pack_gives(
        &self,
        data: Seq<(Seq<char>, JsonView)>,
        params: Seq<(Seq<char>, JsonView)>,
        outcome: Result<Seq<char>, ArtfulError>,
    ) -> bool {
        match xml_pack_spec(data) {
            Some(t) => outcome == Ok::<Seq<char>, ArtfulError>(t),
            None => outcome matches Err(ArtfulError::XmlSerializeError { message, source: None })
                && message@ == nested_value_message(),
        }
    }

    open spec fn unpack_gives(
        &self,
        data: Seq<char>,
        params: Seq<(Seq<char>, JsonView)>,
        outcome: Result<JsonView, ArtfulError>,
    ) -> bool {
        match xml_unpack_spec(data) {
            Ok(v) => outcome == Ok::<JsonView, ArtfulError>(v),
            Err(f) => outcome matches Err(ArtfulError::XmlDeserializeError { message, source }) && message@
                == f.message && opt_text(source) == f.source,
        }
    }

    open spec fn declares(&self, content_type: Option<Seq<char>>) -> bool {
        content_type == Some(xml_content_type())
    }

    fn pack(&self, data: &JsonMap, params: &JsonMap) -> (r: Result<String, ArtfulError>) {
        XmlPacker::pack(self, data, params)
    }

    fn unpack(&self, data: &str, params: &JsonMap) -> (r: Result<JsonValue, ArtfulError>) {
        XmlPacker::unpack(self, data, params)
    }

    fn content_type(&self) -> (r: Option<&'static str>) {
        XmlPacker::content_type(self)
    }
}

} // verus!
