//! The path language of magic values: `$`, then steps `.key` and `[index]`.

use crate::json::Json;
use crate::numbers::{all_digits, digits_value, parse_digits};
use crate::scan::{lemma_scan, scan, scan_run, ByteClass};
use crate::strings::{
    is_ascii_byte, lemma_boundary_after_ascii, lemma_boundary_after_ascii_run, slice_string, text,
};
use vstd::prelude::*;
use vstd::string::*;
use vstd::utf8::*;

verus! {

/// One step into a JSON value.
#[derive(Debug, PartialEq)]
pub enum JsonNest {
    Index(usize),
    Key(String),
}

/// Mathematical model of a [`JsonNest`].
pub enum JsonNestView {
    Index(usize),
    Key(Seq<char>),
}

impl View for JsonNest {
    type V = JsonNestView;

    open spec fn view(&self) -> JsonNestView {
        match self {
            JsonNest::Index(i) => JsonNestView::Index(*i),
            JsonNest::Key(key) => JsonNestView::Key(key@),
        }
    }
}

/// The models of a sequence of steps, one for one.
pub open spec fn nest_views(nest: Seq<JsonNest>) -> Seq<JsonNestView> {
    nest.map_values(|step: JsonNest| step@)
}

/// A path into a JSON value: its steps from the root.
#[derive(Debug, PartialEq)]
pub struct JsonPathRoot {
    pub nest: Vec<JsonNest>,
}

impl View for JsonPathRoot {
    type V = Seq<JsonNestView>;

    open spec fn view(&self) -> Seq<JsonNestView> {
        nest_views(self.nest@)
    }
}

/// What a path leads to.
#[derive(Debug, PartialEq)]
pub enum JsonPathResult {
    String(String),
    Integer(i64),
}

/// Why a path could not be read or followed.
#[derive(Debug, Clone, Copy, PartialEq, Eq)]
pub enum JsonPathError {
    /// The path does not start with `$`.
    MissingRoot,
    /// No letter follows the `.` at this place of the steps.
    NullKey { pos: usize },
    /// Nothing stands between the brackets opened at this place.
    NullIndex { pos: usize },
    /// No `]` closes the bracket opened at this place.
    UnexpectedEndOfIndex { pos: usize },
    /// What stands in the brackets opened at this place is no number that
    /// the machine word holds.
    InvalidIndex { pos: usize },
    /// Neither `.` nor `[` starts the step at this place.
    UnexpectedChar { pos: usize },
    /// The step of this number asks a key of what is no object.
    ExpectedObject { step: usize },
    /// The step of this number asks an index of what is no array.
    ExpectedList { step: usize },
    /// The object has no member of the key of the step of this number.
    MissingKey { step: usize },
    /// The array has no element of the index of the step of this number.
    MissingIndex { step: usize },
    /// The path leads to what is neither a string nor an integer.
    UnexpectedValueType,
}

/// The steps that the bytes spell from `pos` on, after the steps `acc`: a
/// key is a run of letters after `.`, an index a run of digits in brackets.
pub open spec fn steps_from(b: Seq<u8>, pos: int, acc: Seq<JsonNestView>) -> Result<
    Seq<JsonNestView>,
    JsonPathError,
>
    decreases b.len() - pos,
{
    if pos < 0 || pos >= b.len() {
        Ok(acc)
    } else if b[pos] == 0x2e {
        let end = scan(b, pos + 1, ByteClass::Letter);
        proof {
            lemma_scan(b, pos + 1, ByteClass::Letter);
        }
        if end <= pos + 1 {
            Err(JsonPathError::NullKey { pos: pos as usize })
        } else {
            steps_from(b, end, acc.push(JsonNestView::Key(text(b, pos + 1, end))))
        }
    } else if b[pos] == 0x5b {
        let end = scan(b, pos + 1, ByteClass::IndexBody);
        proof {
            lemma_scan(b, pos + 1, ByteClass::IndexBody);
        }
        let digits = b.subrange(pos + 1, end);
        if end >= b.len() {
            Err(JsonPathError::UnexpectedEndOfIndex { pos: pos as usize })
        } else if end <= pos + 1 {
            Err(JsonPathError::NullIndex { pos: pos as usize })
        } else if !all_digits(digits) || digits_value(digits) > usize::MAX {
            Err(JsonPathError::InvalidIndex { pos: pos as usize })
        } else {
            steps_from(b, end + 1, acc.push(JsonNestView::Index(digits_value(digits) as usize)))
        }
    } else {
        Err(JsonPathError::UnexpectedChar { pos: pos as usize })
    }
}

/// The steps that a text of steps spells.
pub open spec fn steps_of(b: Seq<u8>) -> Result<Seq<JsonNestView>, JsonPathError> {
    steps_from(b, 0, Seq::empty())
}

/// The steps of the path that a text spells: `$`, then the steps.
pub open spec fn path_of(b: Seq<u8>) -> Result<Seq<JsonNestView>, JsonPathError> {
    if b.len() == 0 || b[0] != 0x24 {
        Err(JsonPathError::MissingRoot)
    } else {
        steps_of(b.subrange(1, b.len() as int))
    }
}

/// Where the steps from the `i`-th on lead from the given value.
pub open spec fn walk_from(value: Json, nest: Seq<JsonNestView>, i: int) -> Result<
    Json,
    JsonPathError,
>
    decreases nest.len() - i,
{
    if i < 0 || i >= nest.len() {
        Ok(value)
    } else {
        match nest[i] {
            JsonNestView::Key(key) => match value {
                Json::Object(_) => match value.member(key) {
                    Some(inner) => walk_from(inner, nest, i + 1),
                    None => Err(JsonPathError::MissingKey { step: i as usize }),
                },
                _ => Err(JsonPathError::ExpectedObject { step: i as usize }),
            },
            JsonNestView::Index(index) => match value.items() {
                Some(items) => if index < items.len() {
                    walk_from(items[index as int], nest, i + 1)
                } else {
                    Err(JsonPathError::MissingIndex { step: i as usize })
                },
                None => Err(JsonPathError::ExpectedList { step: i as usize }),
            },
        }
    }
}

/// Where the steps lead from the given value.
pub open spec fn walk(value: Json, nest: Seq<JsonNestView>) -> Result<Json, JsonPathError> {
    walk_from(value, nest, 0)
}

/// What the steps give for the given value: the string or the integer that
/// they lead to.
pub open spec fn extraction(value: Json, nest: Seq<JsonNestView>) -> Result<
    JsonPathResult,
    JsonPathError,
> {
    match walk(value, nest) {
        Ok(Json::String(s)) => Ok(JsonPathResult::String(s)),
        Ok(Json::Integer(i)) => Ok(JsonPathResult::Integer(i)),
        Ok(_) => Err(JsonPathError::UnexpectedValueType),
        Err(e) => Err(e),
    }
}

/// What reading a path gave, as [`path_of`] states it.
pub open spec fn path_outcome(r: Result<JsonPathRoot, JsonPathError>) -> Result<
    Seq<JsonNestView>,
    JsonPathError,
> {
    match r {
        Ok(root) => Ok(root@),
        Err(e) => Err(e),
    }
}

/// What reading steps gave, as [`steps_of`] states it.
pub open spec fn steps_outcome(r: Result<Vec<JsonNest>, JsonPathError>) -> Result<
    Seq<JsonNestView>,
    JsonPathError,
> {
    match r {
        Ok(nest) => Ok(nest_views(nest@)),
        Err(e) => Err(e),
    }
}

impl JsonPathRoot {
    /// Reads a path.
    pub fn from(raw: &str) -> (r: Result<JsonPathRoot, JsonPathError>)
        ensures
            path_outcome(r) == path_of(raw.spec_bytes()),
    {
        let bytes = raw.as_bytes();
        if bytes.len() == 0 || bytes[0] != 0x24 {
            return Err(JsonPathError::MissingRoot);
        }
        proof {
            encode_utf8_valid_utf8(raw@);
            is_char_boundary_start_end_of_seq(bytes@);
            lemma_boundary_after_ascii(bytes@, 0);
        }
        let (_, steps) = raw.split_at(1);
        match JsonPathRoot::parse_value(steps) {
            Ok(nest) => Ok(JsonPathRoot { nest }),
            Err(e) => Err(e),
        }
    }

    /// Reads the steps of a path: what follows its `$`.
    pub fn parse_value(steps: &str) -> (r: Result<Vec<JsonNest>, JsonPathError>)
        ensures
            steps_outcome(r) == steps_of(steps.spec_bytes()),
    {
        let bytes = steps.as_bytes();
        let mut nest: Vec<JsonNest> = Vec::new();
        let mut pos: usize = 0;
        proof {
            encode_utf8_valid_utf8(steps@);
            is_char_boundary_start_end_of_seq(bytes@);
        }
        assert(nest_views(nest@) =~= Seq::<JsonNestView>::empty());
        while pos < bytes.len()
            invariant
                bytes@ == steps.spec_bytes(),
                valid_utf8(bytes@),
                pos <= bytes.len(),
                is_char_boundary(bytes@, pos as int),
                steps_of(bytes@) == steps_from(bytes@, pos as int, nest_views(nest@)),
            decreases bytes.len() - pos,
        {
            let ghost before = nest_views(nest@);
            if bytes[pos] == 0x2e {
                let end = scan_run(bytes, pos + 1, ByteClass::Letter);
                if end <= pos + 1 {
                    return Err(JsonPathError::NullKey { pos });
                }
                proof {
                    lemma_scan(bytes@, pos + 1, ByteClass::Letter);
                    lemma_boundary_after_ascii(bytes@, pos as int);
                    lemma_boundary_after_ascii_run(bytes@, pos + 1, end as int);
                }
                let key = JsonNest::Key(slice_string(steps, pos + 1, end));
                nest.push(key);
                assert(nest_views(nest@) =~= before.push(key@));
                pos = end;
            } else if bytes[pos] == 0x5b {
                let end = scan_run(bytes, pos + 1, ByteClass::IndexBody);
                if end >= bytes.len() {
                    return Err(JsonPathError::UnexpectedEndOfIndex { pos });
                }
                if end <= pos + 1 {
                    return Err(JsonPathError::NullIndex { pos });
                }
                let index = match parse_digits(bytes, pos + 1, end, usize::MAX as u128) {
                    Some(index) => JsonNest::Index(index as usize),
                    None => {
                        return Err(JsonPathError::InvalidIndex { pos });
                    },
                };
                proof {
                    lemma_scan(bytes@, pos + 1, ByteClass::IndexBody);
                    lemma_boundary_after_ascii(bytes@, pos as int);
                    let digits = bytes@.subrange(pos + 1, end as int);
                    assert forall|i: int| pos + 1 <= i < end implies is_ascii_byte(
                        #[trigger] bytes@[i],
                    ) by {
                        assert(digits[i - (pos + 1)] == bytes@[i]);
                    }
                    lemma_boundary_after_ascii_run(bytes@, pos + 1, end as int);
                    lemma_boundary_after_ascii(bytes@, end as int);
                }
                nest.push(index);
                assert(nest_views(nest@) =~= before.push(index@));
                pos = end + 1;
            } else {
                return Err(JsonPathError::UnexpectedChar { pos });
            }
        }
        Ok(nest)
    }

    /// Follows the path into the value and returns the string or the
    /// integer that it leads to.
    pub fn extract(&self, value: &Json) -> (r: Result<JsonPathResult, JsonPathError>)
        ensures
            r == extraction(*value, self@),
    {
        match JsonPathRoot::walk_nesting(value, self.nest.as_slice()) {
            Ok(final_node) => match final_node {
                Json::String(s) => Ok(JsonPathResult::String(s.clone())),
                Json::Integer(i) => Ok(JsonPathResult::Integer(*i)),
                _ => Err(JsonPathError::UnexpectedValueType),
            },
            Err(e) => Err(e),
        }
    }

    /// Follows the steps into the value.
    pub fn walk_nesting<'a>(value: &'a Json, nest: &[JsonNest]) -> (r: Result<
        &'a Json,
        JsonPathError,
    >)
        ensures
            r == (match walk(*value, nest_views(nest@)) {
                Ok(found) => Ok(&found),
                Err(e) => Err(e),
            }),
    {
        let ghost steps = nest_views(nest@);
        let mut current = value;
        let mut i: usize = 0;
        while i < nest.len()
            invariant
                i <= nest.len(),
                steps == nest_views(nest@),
                walk(*value, steps) == walk_from(*current, steps, i as int),
            decreases nest.len() - i,
        {
            assert(steps[i as int] == nest@[i as int]@);
            match &nest[i] {
                JsonNest::Key(key) => {
                    match current {
                        Json::Object(_) => {},
                        _ => {
                            return Err(JsonPathError::ExpectedObject { step: i });
                        },
                    }
                    match current.get(key.as_str()) {
                        Some(inner) => {
                            current = inner;
                        },
                        None => {
                            return Err(JsonPathError::MissingKey { step: i });
                        },
                    }
                },
                JsonNest::Index(index) => {
                    match current.as_array() {
                        Some(items) => {
                            if *index < items.len() {
                                current = &items[*index];
                            } else {
                                return Err(JsonPathError::MissingIndex { step: i });
                            }
                        },
                        None => {
                            return Err(JsonPathError::ExpectedList { step: i });
                        },
                    }
                },
            }
            i += 1;
        }
        Ok(current)
    }
}

} // verus!
