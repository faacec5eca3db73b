//! Reading a section into a record: every field of the record's shape is looked up
//! and read as its kind, in the order of the shape, and the first field that
//! cannot be read ends the attempt.

use vstd::prelude::*;
use vstd::string::StringExecFns;
use crate::error::Error;
use crate::parse::{
    bool_of, integer_within, parse_bool, parse_signed, parse_unsigned, reads, FromValue,
};
use crate::values::ValueMap;

verus! {

/// The kinds of values that a field of a record can have.
#[derive(Clone, Copy, Debug, PartialEq, Eq, Structural)]
pub enum FieldKind {
    Text,
    Bool,
    U8,
    U16,
    U32,
    U64,
    U128,
    Usize,
    I8,
    I16,
    I32,
    I64,
    I128,
    Isize,
}

/// One field of a record's shape.
#[derive(Clone, Debug, PartialEq, Eq)]
pub struct Field {
    pub name: String,
    pub kind: FieldKind,
}

/// The value of one field. A whole number is held in the widest type of its
/// signedness; it lies in the range of the field's kind.
#[derive(Clone, Debug, PartialEq, Eq)]
pub enum FieldValue {
    Text(String),
    Bool(bool),
    Unsigned(u128),
    Signed(i128),
}

/// What a field's value stands for.
pub enum Datum {
    Text(Seq<char>),
    Bool(bool),
    Unsigned(int),
    Signed(int),
}

/// Why a field cannot be read.
#[derive(Clone, Copy, Debug, PartialEq, Eq, Structural)]
pub enum Cause {
    /// The section has no value under the field's name.
    Absent,
    /// The value under the field's name does not stand for a value of the
    /// field's kind.
    Unparsable,
}

impl View for Field {
    type V = (Seq<char>, FieldKind);

    open spec fn view(&self) -> (Seq<char>, FieldKind) {
        (self.name@, self.kind)
    }
}

impl View for FieldValue {
    type V = Datum;

    open spec fn view(&self) -> Datum {
        match self {
            FieldValue::Text(text) => Datum::Text(text@),
            FieldValue::Bool(truth) => Datum::Bool(*truth),
            FieldValue::Unsigned(number) => Datum::Unsigned(*number as int),
            FieldValue::Signed(number) => Datum::Signed(*number as int),
        }
    }
}

impl FieldKind {
    /// Whether this is a kind of whole numbers with a sign.
    pub open spec fn signed(self) -> bool {
        match self {
            FieldKind::I8 => true,
            FieldKind::I16 => true,
            FieldKind::I32 => true,
            FieldKind::I64 => true,
            FieldKind::I128 => true,
            FieldKind::Isize => true,
            _ => false,
        }
    }

    /// The least and the greatest number of a kind of whole numbers.
    pub open spec fn range(self) -> (int, int) {
        match self {
            FieldKind::U8 => (0, u8::MAX as int),
            FieldKind::U16 => (0, u16::MAX as int),
            FieldKind::U32 => (0, u32::MAX as int),
            FieldKind::U64 => (0, u64::MAX as int),
            FieldKind::U128 => (0, u128::MAX as int),
            FieldKind::Usize => (0, usize::MAX as int),
            FieldKind::I8 => (i8::MIN as int, i8::MAX as int),
            FieldKind::I16 => (i16::MIN as int, i16::MAX as int),
            FieldKind::I32 => (i32::MIN as int, i32::MAX as int),
            FieldKind::I64 => (i64::MIN as int, i64::MAX as int),
            FieldKind::I128 => (i128::MIN as int, i128::MAX as int),
            FieldKind::Isize => (isize::MIN as int, isize::MAX as int),
            _ => (0, 0),
        }
    }

    /// What a text means as a value of this kind; `None` where it means none. A
    /// whole number of a kind without sign is `Unsigned`, one of a kind with
    /// sign is `Signed`.
    pub open spec fn parsed(self, text: Seq<char>) -> Option<Datum> {
        match self {
            FieldKind::Text => Some(Datum::Text(text)),
            FieldKind::Bool => match bool_of(text) {
                Some(truth) => Some(Datum::Bool(truth)),
                None => None,
            },
            _ => match integer_within(text, self.range().0, self.range().1) {
                Some(number) => if self.signed() {
                    Some(Datum::Signed(number))
                } else {
                    Some(Datum::Unsigned(number))
                },
                None => None,
            },
        }
    }

    /// Reads `text` as a value of this kind.
    pub fn parse(&self, text: &str) -> (r: Option<FieldValue>)
        ensures
            reads(self.parsed(text@), r),
    {
        match self {
            FieldKind::Text => Some(FieldValue::Text(text.to_string())),
            FieldKind::Bool => match parse_bool(text) {
                Some(truth) => Some(FieldValue::Bool(truth)),
                None => None,
            },
            FieldKind::U8 => unsigned_value(parse_unsigned(text, u8::MAX as u128)),
            FieldKind::U16 => unsigned_value(parse_unsigned(text, u16::MAX as u128)),
            FieldKind::U32 => unsigned_value(parse_unsigned(text, u32::MAX as u128)),
            FieldKind::U64 => unsigned_value(parse_unsigned(text, u64::MAX as u128)),
            FieldKind::U128 => unsigned_value(parse_unsigned(text, u128::MAX)),
            FieldKind::Usize => unsigned_value(parse_unsigned(text, usize::MAX as u128)),
            FieldKind::I8 => signed_value(parse_signed(text, i8::MIN as i128, i8::MAX as i128)),
            FieldKind::I16 => signed_value(parse_signed(text, i16::MIN as i128, i16::MAX as i128)),
            FieldKind::I32 => signed_value(parse_signed(text, i32::MIN as i128, i32::MAX as i128)),
            FieldKind::I64 => signed_value(parse_signed(text, i64::MIN as i128, i64::MAX as i128)),
            FieldKind::I128 => signed_value(parse_signed(text, i128::MIN, i128::MAX)),
            FieldKind::Isize => signed_value(
                parse_signed(text, isize::MIN as i128, isize::MAX as i128),
            ),
        }
    }
}

fn unsigned_value(number: Option<u128>) -> (r: Option<FieldValue>)
    ensures
        match number {
            Some(n) => r matches Some(value) && value@ == Datum::Unsigned(n as int),
            None => r is None,
        },
{
    match number {
        Some(n) => Some(FieldValue::Unsigned(n)),
        None => None,
    }
}

fn signed_value(number: Option<i128>) -> (r: Option<FieldValue>)
    ensures
        match number {
            Some(n) => r matches Some(value) && value@ == Datum::Signed(n as int),
            None => r is None,
        },
{
    match number {
        Some(n) => Some(FieldValue::Signed(n)),
        None => None,
    }
}

/// The shape that a list of fields stands for.
pub open spec fn shape_of(fields: Seq<Field>) -> Seq<(Seq<char>, FieldKind)> {
    fields.map_values(|field: Field| field@)
}

/// What a list of field values stands for.
pub open spec fn data_of(values: Seq<FieldValue>) -> Seq<Datum> {
    values.map_values(|value: FieldValue| value@)
}

/// The message of the error for a field whose value is absent.
pub open spec fn missing_text(name: Seq<char>) -> Seq<char> {
    "Missing field '"@ + name + "'"@
}

/// The message of the error for a field whose value is there and cannot be
/// parsed.
pub open spec fn failure_text(name: Seq<char>) -> Seq<char> {
    "Failed to parse field '"@ + name + "'"@
}

/// The message of the error for a field that cannot be read, by its cause.
pub open spec fn cause_text(name: Seq<char>, cause: Cause) -> Seq<char> {
    match cause {
        Cause::Absent => missing_text(name),
        Cause::Unparsable => failure_text(name),
    }
}

/// What a section gives for one field: the meaning of the text under the field's
/// name, or the cause for which there is none.
pub open spec fn field_reads(
    field: (Seq<char>, FieldKind),
    section: Map<Seq<char>, Seq<char>>,
) -> Result<Datum, Cause> {
    if !section.contains_key(field.0) {
        Err(Cause::Absent)
    } else {
        match field.1.parsed(section[field.0]) {
            Some(value) => Ok(value),
            None => Err(Cause::Unparsable),
        }
    }
}

/// What a section gives for a shape: the values of all fields in the order of
/// the shape, or else the name of the first field that cannot be read, with
/// the cause.
pub open spec fn materialized(
    shape: Seq<(Seq<char>, FieldKind)>,
    section: Map<Seq<char>, Seq<char>>,
) -> Result<Seq<Datum>, (Seq<char>, Cause)>
    decreases shape.len(),
{
    if shape.len() == 0 {
        Ok(Seq::empty())
    } else {
        match materialized(shape.drop_last(), section) {
            Ok(values) => match field_reads(shape.last(), section) {
                Ok(value) => Ok(values.push(value)),
                Err(cause) => Err((shape.last().0, cause)),
            },
            Err(failure) => Err(failure),
        }
    }
}

/// `r` is the outcome of reading `section` into `shape`: the record, or the error
/// whose message names the first field that could not be read and says whether
/// its value was absent or could not be parsed.
pub open spec fn materializes(
    shape: Seq<(Seq<char>, FieldKind)>,
    section: Map<Seq<char>, Seq<char>>,
    r: Result<Vec<FieldValue>, Error>,
) -> bool {
    match r {
        Ok(values) => materialized(shape, section) == Ok::<Seq<Datum>, (Seq<char>, Cause)>(
            data_of(values@),
        ),
        Err(e) => {
            &&& materialized(shape, section) matches Err(failure)
            &&& e matches Error::ConfigParse(message)
            &&& message@ == cause_text(failure.0, failure.1)
        },
    }
}

/// What reading one field comes to, given what was found: `None` where the
/// section has no value under `name`, `Some(None)` where the value could not be
/// parsed, and the parsed value otherwise. The error says which of the two it was.
pub fn field_outcome<T>(name: &str, found: Option<Option<T>>) -> (r: Result<T, Error>)
    ensures
        match found {
            Some(Some(value)) => r matches Ok(read) && read == value,
            Some(None) => r matches Err(Error::ConfigParse(message)) && message@ == failure_text(
                name@,
            ),
            None => r matches Err(Error::ConfigParse(message)) && message@ == missing_text(name@),
        },
{
    match found {
        Some(Some(value)) => Ok(value),
        Some(None) => Err(
            Error::ConfigParse("Failed to parse field '".to_string().concat(name).concat("'")),
        ),
        None => Err(Error::ConfigParse("Missing field '".to_string().concat(name).concat("'"))),
    }
}

/// Reads `section` into a record of the given shape. Either every field is
/// there and can be read, and the record holds their values in the order of
/// the shape; or the attempt fails at the first field for which that is not so.
pub fn materialize(shape: &Vec<Field>, section: &ValueMap) -> (r: Result<Vec<FieldValue>, Error>)
    ensures
        materializes(shape_of(shape@), section@, r),
{
    let ghost fields = shape_of(shape@);
    let mut values: Vec<FieldValue> = Vec::new();
    let mut i: usize = 0;
    proof {
        assert(fields.take(0) =~= Seq::<(Seq<char>, FieldKind)>::empty());
        assert(data_of(values@) =~= Seq::<Datum>::empty());
    }
    while i < shape.len()
        invariant
            0 <= i <= shape.len(),
            fields == shape_of(shape@),
            materialized(fields.take(i as int), section@) == Ok::<Seq<Datum>, (Seq<char>, Cause)>(
                data_of(values@),
            ),
        decreases shape.len() - i,
    {
        let field = &shape[i];
        let ghost before = data_of(values@);
        proof {
            assert(fields.take(i + 1).drop_last() =~= fields.take(i as int));
            assert(fields.take(i + 1).last() == field@);
        }
        let found = match section.get(field.name.as_str()) {
            Some(text) => Some(field.kind.parse(text.as_str())),
            None => None,
        };
        match field_outcome(field.name.as_str(), found) {
            Ok(value) => {
                values.push(value);
                proof {
                    assert(data_of(values@) =~= before.push(value@));
                }
            },
            Err(failure) => {
                proof {
                    lemma_failure_stays(fields, section@, i + 1);
                }
                return Err(failure);
            },
        }
        i += 1;
    }
    proof {
        assert(fields.take(shape.len() as int) =~= fields);
    }
    Ok(values)
}

/// Reads the field called `name` out of `section` as a `T`. This is one step of
/// reading a record whose fields have types of their own.
pub fn read_field<T: FromValue>(section: &ValueMap, name: &str) -> (r: Result<T, Error>)
    ensures
        match r {
            Ok(value) => section@.contains_key(name@) && T::parsed(section@[name@]) == Some(
                value@,
            ),
            Err(e) => {
                &&& e matches Error::ConfigParse(message)
                &&& if section@.contains_key(name@) {
                    T::parsed(section@[name@]) is None && message@ == failure_text(name@)
                } else {
                    message@ == missing_text(name@)
                }
            },
        },
{
    let found = match section.get(name) {
        Some(text) => Some(T::from_value(text.as_str())),
        None => None,
    };
    field_outcome(name, found)
}

/// A record that can be read out of a section.
pub trait Section: Sized {
    /// Reads the record, or says which field could not be read.
    fn from_section(map: &ValueMap) -> Result<Self, Error>;
}

/// Once the first `n` fields have failed, the whole shape fails in the same way.
pub proof fn lemma_failure_stays(
    shape: Seq<(Seq<char>, FieldKind)>,
    section: Map<Seq<char>, Seq<char>>,
    n: int,
)
    requires
        0 <= n <= shape.len(),
        materialized(shape.take(n), section) is Err,
    ensures
        materialized(shape, section) == materialized(shape.take(n), section),
    decreases shape.len(),
{
    if n < shape.len() {
        assert(shape.drop_last().take(n) =~= shape.take(n));
        lemma_failure_stays(shape.drop_last(), section, n);
    } else {
        assert(shape.take(n) =~= shape);
    }
}

/// A record comes out exactly when every field can be read, and then it holds
/// for each field what the section gives for it.
pub proof fn lemma_materialized_record(
    shape: Seq<(Seq<char>, FieldKind)>,
    section: Map<Seq<char>, Seq<char>>,
)
    ensures
        materialized(shape, section) is Ok <==> forall|i: int|
            0 <= i < shape.len() ==> field_reads(#[trigger] shape[i], section) is Ok,
        materialized(shape, section) matches Ok(values) ==> values.len() == shape.len()
            && forall|i: int|
            0 <= i < shape.len() ==> field_reads(shape[i], section) == Ok::<Datum, Cause>(
                #[trigger] values[i],
            ),
    decreases shape.len(),
{
    if shape.len() > 0 {
        let front = shape.drop_last();
        lemma_materialized_record(front, section);
        if materialized(shape, section) is Ok {
            assert forall|i: int| 0 <= i < shape.len() implies field_reads(
                #[trigger] shape[i],
                section,
            ) is Ok by {
                if i < front.len() {
                    assert(front[i] == shape[i]);
                }
            }
        }
        if forall|i: int| 0 <= i < shape.len() ==> field_reads(#[trigger] shape[i], section) is Ok {
            assert forall|i: int| 0 <= i < front.len() implies field_reads(
                #[trigger] front[i],
                section,
            ) is Ok by {
                assert(front[i] == shape[i]);
            }
            assert(field_reads(shape[shape.len() - 1], section) is Ok);
        }
        match materialized(shape, section) {
            Ok(values) => {
                let earlier = materialized(front, section)->Ok_0;
                assert forall|i: int| 0 <= i < shape.len() implies field_reads(shape[i], section)
                    == Ok::<Datum, Cause>(#[trigger] values[i]) by {
                    if i < front.len() {
                        assert(front[i] == shape[i]);
                        assert(values[i] == earlier[i]);
                    }
                }
            },
            Err(_) => {},
        }
    }
}

/// A failure names the first field, in the order of the shape, that cannot be
/// read, and gives the cause for that field.
pub proof fn lemma_materialized_failure(
    shape: Seq<(Seq<char>, FieldKind)>,
    section: Map<Seq<char>, Seq<char>>,
)
    ensures
        materialized(shape, section) matches Err(failure) ==> exists|k: int|
            0 <= k < shape.len() && failure.0 == (#[trigger] shape[k]).0 && field_reads(
                shape[k],
                section,
            ) == Err::<Datum, Cause>(failure.1) && forall|j: int|
                0 <= j < k ==> field_reads(#[trigger] shape[j], section) is Ok,
    decreases shape.len(),
{
    if shape.len() > 0 {
        let front = shape.drop_last();
        lemma_materialized_failure(front, section);
        lemma_materialized_record(front, section);
        match materialized(front, section) {
            Ok(_) => {
                if materialized(shape, section) is Err {
                    let k = shape.len() - 1;
                    assert forall|j: int| 0 <= j < k implies field_reads(
                        #[trigger] shape[j],
                        section,
                    ) is Ok by {
                        assert(front[j] == shape[j]);
                    }
                    assert(shape[k].0 == shape.last().0);
                }
            },
            Err(failure) => {
                let k = choose|k: int|
                    0 <= k < front.len() && failure.0 == (#[trigger] front[k]).0 && field_reads(
                        front[k],
                        section,
                    ) == Err::<Datum, Cause>(failure.1) && forall|j: int|
                        0 <= j < k ==> field_reads(#[trigger] front[j], section) is Ok;
                assert(shape[k] == front[k]);
                assert forall|j: int| 0 <= j < k implies field_reads(
                    #[trigger] shape[j],
                    section,
                ) is Ok by {
                    assert(front[j] == shape[j]);
                }
            },
        }
    }
}

/// All or nothing: where the section lacks one of the fields, no record comes out.
pub proof fn lemma_missing_field_fails(
    shape: Seq<(Seq<char>, FieldKind)>,
    section: Map<Seq<char>, Seq<char>>,
    i: int,
)
    requires
        0 <= i < shape.len(),
        !section.contains_key(shape[i].0),
    ensures
        materialized(shape, section) is Err,
{
    lemma_materialized_record(shape, section);
    assert(field_reads(shape[i], section) is Err);
}

/// Reading one section into one shape twice gives the same outcome: records that
/// stand for the same values, or errors with the same message.
pub proof fn lemma_materialize_deterministic(
    shape: Seq<(Seq<char>, FieldKind)>,
    section: Map<Seq<char>, Seq<char>>,
    first: Result<Vec<FieldValue>, Error>,
    second: Result<Vec<FieldValue>, Error>,
)
    requires
        materializes(shape, section, first),
        materializes(shape, section, second),
    ensures
        match (first, second) {
            (Ok(a), Ok(b)) => data_of(a@) == data_of(b@),
            (Err(Error::ConfigParse(a)), Err(Error::ConfigParse(b))) => a@ == b@,
            _ => false,
        },
{
}

} // verus!
