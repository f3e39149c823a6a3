//! `getoption` replies.
//!
//! Replies look like `{"option": "decoration:rounding", "int": 0, "set": true}`. The
//! value key names the option's type. Observed keys: `int`, `float`, `str`, `css`
//! (`"2 2 2 2"`), `gradient` (`"ff7fbbb3 aa595959 45deg"`). Color options are reported
//! as `int` holding `0xAARRGGBB`.

use serde_json::Value;
use vstd::prelude::*;

use crate::appearance::{
    color_of_int, css_values, gradient_stops, hex_color_value, parse_css, parse_gradient, rgba_of,
    strip_0x, ColorError, CssError, Rgba,
};
use crate::text::words;

verus! {

/// The value keys of a reply object, each absent, or present with its value read as
/// the type the key names (`None` where the value is of another kind). A `float` is
/// only tested for being a number: the number itself is read by the caller.
#[derive(Clone, Debug, PartialEq, Eq)]
pub struct ReplyFields {
    pub int: Option<Option<i64>>,
    pub float: Option<bool>,
    pub str_value: Option<Option<String>>,
    pub css: Option<Option<String>>,
    pub gradient: Option<Option<String>>,
}

pub struct ReplyFieldsView {
    pub int: Option<Option<i64>>,
    pub float: Option<bool>,
    pub str_value: Option<Option<Seq<char>>>,
    pub css: Option<Option<Seq<char>>>,
    pub gradient: Option<Option<Seq<char>>>,
}

pub open spec fn text_field(f: Option<Option<String>>) -> Option<Option<Seq<char>>> {
    match f {
        Some(Some(s)) => Some(Some(s@)),
        Some(None) => Some(None),
        None => None,
    }
}

impl View for ReplyFields {
    type V = ReplyFieldsView;

    open spec fn view(&self) -> ReplyFieldsView {
        ReplyFieldsView {
            int: self.int,
            float: self.float,
            str_value: text_field(self.str_value),
            css: text_field(self.css),
            gradient: text_field(self.gradient),
        }
    }
}

/// A reply as JSON reads it.
#[derive(Clone, Debug, PartialEq, Eq)]
pub enum JsonReply {
    NotJson,
    NotObject,
    Object(ReplyFields),
}

pub enum JsonReplyView {
    NotJson,
    NotObject,
    Object(ReplyFieldsView),
}

impl View for JsonReply {
    type V = JsonReplyView;

    open spec fn view(&self) -> JsonReplyView {
        match self {
            JsonReply::NotJson => JsonReplyView::NotJson,
            JsonReply::NotObject => JsonReplyView::NotObject,
            JsonReply::Object(f) => JsonReplyView::Object(f@),
        }
    }
}

/// What `serde_json` reads of the reply text `reply`.
pub uninterp spec fn json_reply(reply: Seq<char>) -> JsonReplyView;

/// `serde_json::from_str::<Value>`, then `Value::as_object`, and of the object the
/// values under the five keys by `Map::get`, read with `Value::as_i64`,
/// `Value::is_number` and `Value::as_str`.
#[verifier::external_body]
fn read_reply(reply: &str) -> (r: JsonReply)
    ensures
        r@ == json_reply(reply@),
{
    let value: Value = match serde_json::from_str(reply) {
        Ok(value) => value,
        Err(_) => return JsonReply::NotJson,
    };
    let Some(o) = value.as_object() else { return JsonReply::NotObject };
    let text = |key: &str| o.get(key).map(|v| v.as_str().map(str::to_owned));
    JsonReply::Object(ReplyFields {
        int: o.get("int").map(Value::as_i64),
        float: o.get("float").map(Value::is_number),
        str_value: text("str"),
        css: text("css"),
        gradient: text("gradient"),
    })
}

/// A reply's value. A `float` option's number is read by the caller.
#[derive(Clone, Debug, PartialEq, Eq)]
pub enum ReplyValue {
    Int(i64),
    Float,
    Str(String),
    /// CSS-style shorthand, `top right bottom left`, already split.
    Css(Vec<i64>),
    /// Gradient color stops. The angle is dropped.
    Gradient(Vec<Rgba>),
}

pub enum ReplyValueView {
    Int(i64),
    Float,
    Str(Seq<char>),
    Css(Seq<i64>),
    Gradient(Seq<Rgba>),
}

impl View for ReplyValue {
    type V = ReplyValueView;

    open spec fn view(&self) -> ReplyValueView {
        match self {
            ReplyValue::Int(v) => ReplyValueView::Int(*v),
            ReplyValue::Float => ReplyValueView::Float,
            ReplyValue::Str(s) => ReplyValueView::Str(s@),
            ReplyValue::Css(v) => ReplyValueView::Css(v@),
            ReplyValue::Gradient(v) => ReplyValueView::Gradient(v@),
        }
    }
}

/// Why a reply could not be read.
#[derive(Clone, Debug, PartialEq, Eq)]
pub enum ReplyError {
    /// Not JSON.
    NotJson,
    /// JSON, but not an object.
    NotObject,
    /// `int` is not an integer.
    BadInt,
    /// `float` is not a number.
    BadFloat,
    /// `str` is not a string.
    BadStr,
    /// `css` is not a string.
    BadCss,
    /// A `css` value that is not an integer.
    Css(CssError),
    /// `gradient` is not a string.
    BadGradient,
    /// A gradient stop that is not a color.
    Gradient(ColorError),
    /// None of the value keys.
    Unrecognized,
}

pub enum ReplyErrorView {
    NotJson,
    NotObject,
    BadInt,
    BadFloat,
    BadStr,
    BadCss,
    /// The word that is not an integer.
    Css(Seq<char>),
    BadGradient,
    /// The word that is not hexadecimal digits.
    BadColor(Seq<char>),
    /// The word whose digits are neither 6 nor 8.
    ColorLength(Seq<char>),
    Unrecognized,
}

impl View for ReplyError {
    type V = ReplyErrorView;

    open spec fn view(&self) -> ReplyErrorView {
        match self {
            ReplyError::NotJson => ReplyErrorView::NotJson,
            ReplyError::NotObject => ReplyErrorView::NotObject,
            ReplyError::BadInt => ReplyErrorView::BadInt,
            ReplyError::BadFloat => ReplyErrorView::BadFloat,
            ReplyError::BadStr => ReplyErrorView::BadStr,
            ReplyError::BadCss => ReplyErrorView::BadCss,
            ReplyError::Css(e) => ReplyErrorView::Css(e.0@),
            ReplyError::BadGradient => ReplyErrorView::BadGradient,
            ReplyError::Gradient(ColorError::Bad(t)) => ReplyErrorView::BadColor(t@),
            ReplyError::Gradient(ColorError::Length(t)) => ReplyErrorView::ColorLength(t@),
            ReplyError::Unrecognized => ReplyErrorView::Unrecognized,
        }
    }
}

pub open spec fn result_view(r: Result<ReplyValue, ReplyError>) -> Result<ReplyValueView, ReplyErrorView> {
    match r {
        Ok(v) => Ok(v@),
        Err(e) => Err(e@),
    }
}

/// The value of a reply object: the first of `int`, `float`, `str`, `css` and
/// `gradient` that is present decides, and it must be of its kind; `css` is split
/// into integers, `gradient` into color stops with the angle dropped.
pub open spec fn option_spec(f: ReplyFieldsView) -> Result<ReplyValueView, ReplyErrorView> {
    match f.int {
        Some(Some(v)) => Ok(ReplyValueView::Int(v)),
        Some(None) => Err(ReplyErrorView::BadInt),
        None => match f.float {
            Some(true) => Ok(ReplyValueView::Float),
            Some(false) => Err(ReplyErrorView::BadFloat),
            None => match f.str_value {
                Some(Some(s)) => Ok(ReplyValueView::Str(s)),
                Some(None) => Err(ReplyErrorView::BadStr),
                None => match f.css {
                    Some(Some(s)) => match css_values(words(s)) {
                        Ok(v) => Ok(ReplyValueView::Css(v)),
                        Err(w) => Err(ReplyErrorView::Css(w)),
                    },
                    Some(None) => Err(ReplyErrorView::BadCss),
                    None => match f.gradient {
                        Some(Some(s)) => match gradient_stops(words(s)) {
                            Ok(cs) => Ok(ReplyValueView::Gradient(cs)),
                            Err(w) => Err(
                                if hex_color_value(strip_0x(w)) is Some {
                                    ReplyErrorView::ColorLength(w)
                                } else {
                                    ReplyErrorView::BadColor(w)
                                },
                            ),
                        },
                        Some(None) => Err(ReplyErrorView::BadGradient),
                        None => Err(ReplyErrorView::Unrecognized),
                    },
                },
            },
        },
    }
}

/// The value of a reply object's fields. See [`option_spec`].
pub fn option_of_fields(f: &ReplyFields) -> (r: Result<ReplyValue, ReplyError>)
    ensures
        result_view(r) == option_spec(f@),
{
    match &f.int {
        Some(Some(v)) => return Ok(ReplyValue::Int(*v)),
        Some(None) => return Err(ReplyError::BadInt),
        None => {},
    }
    match f.float {
        Some(true) => return Ok(ReplyValue::Float),
        Some(false) => return Err(ReplyError::BadFloat),
        None => {},
    }
    match &f.str_value {
        Some(Some(s)) => return Ok(ReplyValue::Str(s.clone())),
        Some(None) => return Err(ReplyError::BadStr),
        None => {},
    }
    match &f.css {
        Some(Some(s)) => return match parse_css(s.as_str()) {
            Ok(v) => Ok(ReplyValue::Css(v)),
            Err(e) => Err(ReplyError::Css(e)),
        },
        Some(None) => return Err(ReplyError::BadCss),
        None => {},
    }
    match &f.gradient {
        Some(Some(s)) => match parse_gradient(s.as_str()) {
            Ok(v) => Ok(ReplyValue::Gradient(v)),
            Err(e) => Err(ReplyError::Gradient(e)),
        },
        Some(None) => Err(ReplyError::BadGradient),
        None => Err(ReplyError::Unrecognized),
    }
}

/// What a `getoption` reply says, see [`option_spec`]: an error when it is not JSON or
/// not an object.
pub open spec fn reply_spec(j: JsonReplyView) -> Result<ReplyValueView, ReplyErrorView> {
    match j {
        JsonReplyView::NotJson => Err(ReplyErrorView::NotJson),
        JsonReplyView::NotObject => Err(ReplyErrorView::NotObject),
        JsonReplyView::Object(f) => option_spec(f),
    }
}

/// Reads a `getoption` reply. See [`reply_spec`].
pub fn parse_option(reply: &str) -> (r: Result<ReplyValue, ReplyError>)
    ensures
        result_view(r) == reply_spec(json_reply(reply@)),
{
    match read_reply(reply) {
        JsonReply::NotJson => Err(ReplyError::NotJson),
        JsonReply::NotObject => Err(ReplyError::NotObject),
        JsonReply::Object(f) => option_of_fields(&f),
    }
}

/// Why a border option gives no color stops.
#[derive(Clone, Copy, Debug, PartialEq, Eq)]
pub enum StopsError {
    /// The option is not a gradient.
    NotGradient,
    /// The gradient has no color stop.
    NoStops,
}

impl ReplyValue {
    /// The stops of a border gradient, which has at least one.
    pub fn border_stops(&self) -> (r: Result<Vec<Rgba>, StopsError>)
        ensures
            match self@ {
                ReplyValueView::Gradient(cs) => if cs.len() > 0 {
                    r matches Ok(v) && v@ == cs
                } else {
                    r == Err::<Vec<Rgba>, StopsError>(StopsError::NoStops)
                },
                _ => r == Err::<Vec<Rgba>, StopsError>(StopsError::NotGradient),
            },
    {
        match self {
            ReplyValue::Gradient(stops) => if stops.len() > 0 {
                Ok(stops.clone())
            } else {
                Err(StopsError::NoStops)
            },
            _ => Err(StopsError::NotGradient),
        }
    }

    /// An `int` option read as an `0xAARRGGBB` color, see [`color_of_int`].
    pub fn as_color(&self) -> (r: Option<Rgba>)
        ensures
            r == match self@ {
                ReplyValueView::Int(v) => if 0 <= v && v <= u32::MAX {
                    Some(rgba_of(v as u32))
                } else {
                    None
                },
                _ => None,
            },
    {
        match self {
            ReplyValue::Int(v) => color_of_int(*v),
            _ => None,
        }
    }

    /// First component of a `css` shorthand, or the plain integer.
    pub fn as_css_first(&self) -> (r: Option<i64>)
        ensures
            r == match self@ {
                ReplyValueView::Css(v) => if v.len() > 0 {
                    Some(v[0])
                } else {
                    None
                },
                ReplyValueView::Int(v) => Some(v),
                _ => None,
            },
    {
        match self {
            ReplyValue::Css(parts) => if parts.len() > 0 {
                Some(parts[0])
            } else {
                None
            },
            ReplyValue::Int(v) => Some(*v),
            _ => None,
        }
    }

    /// The stops of a `gradient` option.
    pub fn as_gradient(&self) -> (r: Option<&Vec<Rgba>>)
        ensures
            match self@ {
                ReplyValueView::Gradient(cs) => r matches Some(v) && v@ == cs,
                _ => r is None,
            },
    {
        match self {
            ReplyValue::Gradient(stops) => Some(stops),
            _ => None,
        }
    }
}

} // verus!
