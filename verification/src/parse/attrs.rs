//! Reading attribute values.
use vstd::prelude::*;
use vstd::string::*;
use crate::attributes::attr_views;
use crate::attributes::AttrView;
use crate::attributes::AttributeValue;
use crate::error::Error;
use crate::error::ErrorView;
use crate::parse::reads;
use crate::parse::text::number_at;
use crate::parse::text::quote_end;
use crate::parse::text::token_at;
use crate::parse::text::Parser;
use crate::parse::types::before;
use crate::parse::types::before_nothing;
use crate::parse::types::before_twice;
use crate::parse::ParseResult;
use crate::parse::Parsed;

verus! {

/// The attribute value that comes next, where one does: a number, a string, a
/// truth value, or a list of values in square brackets.
pub open spec fn attr_at(text: Seq<char>, pos: int) -> Parsed<Option<AttrView>>
    decreases text.len() - pos, 0nat,
{
    match number_at(text, pos) {
        Some((n, p)) => Ok((Some(AttrView::Int(n)), p)),
        None => match token_at(text, pos, "\""@) {
            Some(p) => match quote_end(text, p) {
                Some(end) => Ok((Some(AttrView::Str(text.subrange(p, end))), end + 1)),
                None => Err((p, ErrorView::ExpectedToken("\""@))),
            },
            None => match token_at(text, pos, "true"@) {
                Some(p) => Ok((Some(AttrView::Bool(true)), p)),
                None => match token_at(text, pos, "false"@) {
                    Some(p) => Ok((Some(AttrView::Bool(false)), p)),
                    None => match token_at(text, pos, "["@) {
                        Some(p) => match token_at(text, p, "]"@) {
                            Some(p) => Ok((Some(AttrView::Array(Seq::empty())), p)),
                            None => if !(pos < p <= text.len()) {
                                Err((p, ErrorView::ExpectedToken("attribute"@)))
                            } else {
                                match attrs_at(text, p) {
                                    Ok((items, p)) => Ok((Some(AttrView::Array(items)), p)),
                                    Err(e) => Err(e),
                                }
                            },
                        },
                        None => Ok((None, pos)),
                    },
                },
            },
        },
    }
}

/// The attribute values that have to come next, separated by commas, up to the
/// closing bracket.
pub open spec fn attrs_at(text: Seq<char>, pos: int) -> Parsed<Seq<AttrView>>
    decreases text.len() - pos, 1nat,
{
    match attr_at(text, pos) {
        Err(e) => Err(e),
        Ok((None, p)) => Err((p, ErrorView::ExpectedToken("attribute"@))),
        Ok((Some(item), p)) => match token_at(text, p, "]"@) {
            Some(p) => Ok((seq![item], p)),
            None => match token_at(text, p, ","@) {
                None => Err((p, ErrorView::ExpectedToken(","@))),
                Some(p) => if !(pos < p <= text.len()) {
                    Err((p, ErrorView::ExpectedToken("attribute"@)))
                } else {
                    before(seq![item], attrs_at(text, p))
                },
            },
        },
    }
}

/// The list behind `keyword`, where `keyword` comes next. `what` names the list
/// where none follows.
pub open spec fn keyed_at(
    text: Seq<char>,
    pos: int,
    keyword: Seq<char>,
    what: Seq<char>,
) -> Parsed<Option<AttrView>> {
    match token_at(text, pos, keyword) {
        None => Ok((None, pos)),
        Some(p) => match attr_at(text, p) {
            Err(e) => Err(e),
            Ok((value, p)) => match value {
                Some(AttrView::Array(_)) => Ok((value, p)),
                _ => Err((p, ErrorView::ExpectedToken(what))),
            },
        },
    }
}

/// What an attribute value that may be absent says.
pub open spec fn optional_attr(value: Option<AttributeValue>) -> Option<AttrView> {
    match value {
        Some(value) => Some(value@),
        None => None,
    }
}

impl Parser {
    /// The attribute value that comes next, where one does.
    pub fn parse_attribute_value(&mut self) -> (r: ParseResult<Option<AttributeValue>>)
        requires
            old(self)@.wf(),
        ensures
            reads(
                r,
                old(self)@,
                final(self)@,
                attr_at(old(self)@.text, old(self)@.pos),
                |v: Option<AttributeValue>| optional_attr(v),
            ),
            final(self)@.wf(),
            final(self)@.pos >= old(self)@.pos,
            r matches Ok(Some(_)) ==> final(self)@.pos > old(self)@.pos,
        decreases old(self)@.text.len() - old(self)@.pos, 0nat,
    {
        proof {
            reveal_strlit("\"");
            reveal_strlit("true");
            reveal_strlit("false");
            reveal_strlit("[");
        }
        if let Some(n) = self.parse_number() {
            return Ok(Some(AttributeValue::Int(n)));
        }
        if self.parse_token("\"") {
            let start: usize = self.pos();
            return match self.quote_to(start) {
                Some(end) => {
                    let s = self.piece(start, end);
                    self.set_pos(end + 1);
                    Ok(Some(AttributeValue::Str(s)))
                },
                None => Err((self.span(), Error::ExpectedToken("\""))),
            };
        }
        if self.parse_token("true") {
            return Ok(Some(AttributeValue::Bool(true)));
        }
        if self.parse_token("false") {
            return Ok(Some(AttributeValue::Bool(false)));
        }
        if self.parse_token("[") {
            if self.parse_token("]") {
                let v = AttributeValue::Array(Vec::new());
                assert(v@->Array_0 =~= Seq::<AttrView>::empty());
                return Ok(Some(v));
            }
            return match self.parse_attributes() {
                Ok(items) => {
                    let ghost list = attr_views(items@);
                    let v = AttributeValue::Array(items);
                    assert(v@->Array_0 =~= list);
                    Ok(Some(v))
                },
                Err(e) => Err(e),
            };
        }
        Ok(None)
    }

    fn parse_attributes(&mut self) -> (r: ParseResult<Vec<AttributeValue>>)
        requires
            old(self)@.wf(),
        ensures
            reads(
                r,
                old(self)@,
                final(self)@,
                attrs_at(old(self)@.text, old(self)@.pos),
                |list: Vec<AttributeValue>| attr_views(list@),
            ),
            final(self)@.wf(),
            final(self)@.pos >= old(self)@.pos,
        decreases old(self)@.text.len() - old(self)@.pos, 1nat,
    {
        proof {
            reveal_strlit(",");
        }
        let ghost start = self@;
        let mut list: Vec<AttributeValue> = Vec::new();
        assert(attr_views(list@) =~= Seq::<AttrView>::empty());
        proof {
            before_nothing(attrs_at(start.text, start.pos));
        }
        loop
            invariant
                self@.wf(),
                self@.text == start.text,
                self@.pos >= start.pos,
                start == old(self)@,
                ","@.len() == 1,
                before(attr_views(list@), attrs_at(self@.text, self@.pos)) == attrs_at(
                    start.text,
                    start.pos,
                ),
            decreases self@.text.len() - self@.pos,
        {
            let ghost so_far = attr_views(list@);
            let item = match self.parse_attribute_value() {
                Ok(Some(item)) => item,
                Ok(None) => {
                    return Err((self.span(), Error::ExpectedToken("attribute")));
                },
                Err(e) => {
                    return Err(e);
                },
            };
            let ghost view = item@;
            list.push(item);
            assert(attr_views(list@) =~= so_far + seq![view]);
            if self.parse_token("]") {
                return Ok(list);
            }
            if let Err(e) = self.expect(",") {
                return Err(e);
            }
            proof {
                before_twice(so_far, seq![view], attrs_at(self@.text, self@.pos));
            }
        }
    }

    /// The list behind `keyword`, where `keyword` comes next. `what` names the
    /// list in the error.
    pub fn parse_keyed_array(&mut self, keyword: &'static str, what: &'static str) -> (r:
        ParseResult<Option<AttributeValue>>)
        requires
            old(self)@.wf(),
        ensures
            reads(
                r,
                old(self)@,
                final(self)@,
                keyed_at(old(self)@.text, old(self)@.pos, keyword@, what@),
                |v: Option<AttributeValue>| optional_attr(v),
            ),
            final(self)@.wf(),
            final(self)@.pos >= old(self)@.pos,
    {
        if !self.parse_token(keyword) {
            return Ok(None);
        }
        match self.parse_attribute_value() {
            Ok(Some(AttributeValue::Array(items))) => Ok(Some(AttributeValue::Array(items))),
            Ok(_) => Err((self.span(), Error::ExpectedToken(what))),
            Err(e) => Err(e),
        }
    }
}

} // verus!
