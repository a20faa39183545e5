//! What a document's lines mean: the count on the first line, a record on
//! each of the others, and the ways in which a load fails.

use vstd::prelude::*;
use vstd::string::*;
use crate::number::{
    all_digits, is_digit, magnitude_part, parse_count, parse_i32, parse_u8, signed_of, unsigned_of,
};
use crate::text::{
    content_len, field, field_bounds, find_fields, joined, lemma_fields_of_joined,
    lemma_joined_ends_as_last, no_space, strip_terminator, trim, trimmed, Text,
};
use crate::{PtsPoint, Vec3};

verus! {

/// The fields of a record, in the order in which a line holds them.
#[derive(Clone, Copy, Debug, PartialEq, Eq, Hash)]
pub enum Field {
    X,
    Y,
    Z,
    Intensity,
    R,
    G,
    B,
}

/// Why a load failed.
#[derive(Clone, Debug, PartialEq, Eq)]
pub enum LoadError {
    /// The document at `path` could not be opened or read.
    Io { path: String },
    /// The first line of the document at `path` holds no record count; `raw`
    /// is what it holds, without the white space around it.
    Header { path: String, raw: String },
    /// Line `line` ends before `field`.
    MissingField { line: usize, field: Field },
    /// On line `line`, `token` stands where `field` should and is no value
    /// of that field's kind.
    NumericParse { line: usize, field: Field, token: String },
    /// The document ended after `found` records though its first line
    /// declares `declared`.
    Truncated { declared: usize, found: usize },
}

/// A `LoadError` with its texts as sequences of characters.
pub enum Failure {
    Io { path: Seq<char> },
    Header { path: Seq<char>, raw: Seq<char> },
    MissingField { line: usize, field: Field },
    NumericParse { line: usize, field: Field, token: Seq<char> },
    Truncated { declared: usize, found: usize },
}

impl View for LoadError {
    type V = Failure;

    open spec fn view(&self) -> Failure {
        match self {
            LoadError::Io { path } => Failure::Io { path: path@ },
            LoadError::Header { path, raw } => Failure::Header { path: path@, raw: raw@ },
            LoadError::MissingField { line, field } => Failure::MissingField {
                line: *line,
                field: *field,
            },
            LoadError::NumericParse { line, field, token } => Failure::NumericParse {
                line: *line,
                field: *field,
                token: token@,
            },
            LoadError::Truncated { declared, found } => Failure::Truncated {
                declared: *declared,
                found: *found,
            },
        }
    }
}

impl Field {
    /// How messages call the field.
    pub open spec fn label(self) -> Seq<char> {
        match self {
            Field::X => "x coordinate"@,
            Field::Y => "y coordinate"@,
            Field::Z => "z coordinate"@,
            Field::Intensity => "intensity value"@,
            Field::R => "R color value"@,
            Field::G => "G color value"@,
            Field::B => "B color value"@,
        }
    }

    /// The field's place on a line, counted from zero.
    pub open spec fn index(self) -> nat {
        match self {
            Field::X => 0,
            Field::Y => 1,
            Field::Z => 2,
            Field::Intensity => 3,
            Field::R => 4,
            Field::G => 5,
            Field::B => 6,
        }
    }

    pub fn name(self) -> (r: &'static str)
        ensures
            r@ == self.label(),
    {
        match self {
            Field::X => "x coordinate",
            Field::Y => "y coordinate",
            Field::Z => "z coordinate",
            Field::Intensity => "intensity value",
            Field::R => "R color value",
            Field::G => "G color value",
            Field::B => "B color value",
        }
    }
}

impl Failure {
    /// The failure in words.
    pub open spec fn message(self) -> Seq<char> {
        match self {
            Failure::Io { path } => "Failed to load file "@ + path,
            Failure::Header { path, raw } => "Couldn't find row count in first line of "@ + path
                + ", got "@ + raw,
            Failure::MissingField { line, field } => "No "@ + field.label(),
            Failure::NumericParse { line, field, token } => "Invalid "@ + field.label() + ": "@
                + token,
            Failure::Truncated { declared, found } => "Fewer rows than the first line declares"@,
        }
    }
}

impl LoadError {
    /// The failure that a document gives which cannot be opened or read.
    pub fn io(path: &str) -> (e: LoadError)
        ensures
            e@ == (Failure::Io { path: path@ }),
    {
        LoadError::Io { path: String::from_str(path) }
    }

    /// A second value of the same failure.
    pub fn duplicate(&self) -> (e: LoadError)
        ensures
            e@ == self@,
    {
        match self {
            LoadError::Io { path } => LoadError::Io { path: path.clone() },
            LoadError::Header { path, raw } => LoadError::Header {
                path: path.clone(),
                raw: raw.clone(),
            },
            LoadError::MissingField { line, field } => LoadError::MissingField {
                line: *line,
                field: *field,
            },
            LoadError::NumericParse { line, field, token } => LoadError::NumericParse {
                line: *line,
                field: *field,
                token: token.clone(),
            },
            LoadError::Truncated { declared, found } => LoadError::Truncated {
                declared: *declared,
                found: *found,
            },
        }
    }

    /// The failure in words.
    pub fn message(&self) -> (r: String)
        ensures
            r@ == self@.message(),
    {
        match self {
            LoadError::Io { path } => {
                let mut m = String::from_str("Failed to load file ");
                m.append(path.as_str());
                m
            },
            LoadError::Header { path, raw } => {
                let mut m = String::from_str("Couldn't find row count in first line of ");
                m.append(path.as_str());
                m.append(", got ");
                m.append(raw.as_str());
                m
            },
            LoadError::MissingField { line, field } => {
                let mut m = String::from_str("No ");
                m.append(field.name());
                m
            },
            LoadError::NumericParse { line, field, token } => {
                let mut m = String::from_str("Invalid ");
                m.append(field.name());
                m.append(": ");
                m.append(token.as_str());
                m
            },
            LoadError::Truncated { declared, found } => String::from_str(
                "Fewer rows than the first line declares",
            ),
        }
    }
}

/// An outcome with its failure, if it is one, taken by its view.
pub open spec fn outcome<T>(r: Result<T, LoadError>) -> Result<T, Failure> {
    match r {
        Ok(v) => Ok(v),
        Err(e) => Err(e@),
    }
}

/// The record count that the first line of the document at `path` declares.
pub open spec fn header_of(path: Seq<char>, line: Seq<char>) -> Result<usize, Failure> {
    match unsigned_of(trimmed(line), usize::MAX as nat) {
        Some(n) => Ok(n as usize),
        None => Err(Failure::Header { path, raw: trimmed(line) }),
    }
}

/// Reads the record count from the first line of the document at `path`. The
/// line may be empty, as it is where the document is.
pub fn parse_header(path: &str, line: &str) -> (r: Result<usize, LoadError>)
    ensures
        outcome(r) == header_of(path@, line@),
{
    let raw = trim(line);
    match parse_count(raw) {
        Some(n) => Ok(n),
        None => Err(LoadError::Header { path: String::from_str(path), raw: String::from_str(raw) }),
    }
}

/// The texts that a vector of string slices holds.
pub open spec fn texts(v: Seq<&str>) -> Seq<Seq<char>> {
    Seq::new(v.len(), |i: int| v[i]@)
}

/// Entry `n` of `tokens`, if there is one.
pub open spec fn token_at(tokens: Seq<Seq<char>>, n: nat) -> Option<Seq<char>> {
    if n < tokens.len() {
        Some(tokens[n as int])
    } else {
        None
    }
}

/// Whether `tokens` are the first fields of `line` without its terminator:
/// all seven of a record, or as many as the line has.
pub open spec fn is_split(line: Seq<char>, tokens: Seq<Seq<char>>) -> bool {
    &&& tokens.len() <= 7
    &&& forall|n: nat|
        n < 7 ==> #[trigger] field(strip_terminator(line), n) == token_at(tokens, n)
}

/// Parts `line` into the fields of a record. What follows the seventh field
/// is left out.
pub fn split_fields<'a>(line: &'a str) -> (r: Vec<&'a str>)
    ensures
        is_split(line@, texts(r@)),
{
    let text = Text::new(line);
    let end = content_len(&text);
    let bounds = find_fields(&text, end, 7);
    let ghost s = strip_terminator(line@);
    let mut out: Vec<&'a str> = Vec::new();
    let mut i: usize = 0;
    while i < bounds.len()
        invariant
            text.wf(),
            text@ == line@,
            end <= text@.len(),
            s == line@.subrange(0, end as int),
            i <= bounds@.len(),
            out@.len() == i,
            forall|n: int| 0 <= n < bounds@.len() ==> (#[trigger] bounds@[n]).0 <= bounds@[n].1 <= end,
            forall|n: int|
                0 <= n < i ==> (#[trigger] out@[n])@ == s.subrange(
                    bounds@[n].0 as int,
                    bounds@[n].1 as int,
                ),
        decreases bounds@.len() - i,
    {
        let (a, b) = bounds[i];
        let token = text.slice(a, b);
        assert(token@ =~= s.subrange(a as int, b as int));
        out.push(token);
        i = i + 1;
    }
    proof {
        assert forall|n: nat| n < 7 implies #[trigger] field(s, n) == token_at(texts(out@), n) by {
            assert(field_bounds(s, 0, n) is Some <==> n < bounds@.len());
        }
    }
    out
}

/// The value of a position field: `decoded` is what decoding the field's
/// text gave, and is not looked at where the line has no such field.
pub open spec fn position_of(
    line: usize,
    field: Field,
    token: Option<Seq<char>>,
    decoded: Option<u32>,
) -> Result<u32, Failure> {
    match token {
        None => Err(Failure::MissingField { line, field }),
        Some(t) => match decoded {
            Some(bits) => Ok(bits),
            None => Err(Failure::NumericParse { line, field, token: t }),
        },
    }
}

/// The value of the intensity field.
pub open spec fn intensity_of(line: usize, token: Option<Seq<char>>) -> Result<i32, Failure> {
    match token {
        None => Err(Failure::MissingField { line, field: Field::Intensity }),
        Some(t) => match signed_of(t, i32::MIN as int, i32::MAX as int) {
            Some(v) => Ok(v as i32),
            None => Err(Failure::NumericParse { line, field: Field::Intensity, token: t }),
        },
    }
}

/// The value of a colour field.
pub open spec fn channel_of(line: usize, field: Field, token: Option<Seq<char>>) -> Result<
    u8,
    Failure,
> {
    match token {
        None => Err(Failure::MissingField { line, field }),
        Some(t) => match unsigned_of(t, 255) {
            Some(v) => Ok(v as u8),
            None => Err(Failure::NumericParse { line, field, token: t }),
        },
    }
}

/// The record that seven fields make, or the failure of the first field, in
/// the order of the line, that is absent or no value of its kind.
pub open spec fn record_of_fields(
    line: usize,
    fields: spec_fn(nat) -> Option<Seq<char>>,
    x: Option<u32>,
    y: Option<u32>,
    z: Option<u32>,
) -> Result<PtsPoint, Failure> {
    let px = position_of(line, Field::X, fields(0), x);
    let py = position_of(line, Field::Y, fields(1), y);
    let pz = position_of(line, Field::Z, fields(2), z);
    let i = intensity_of(line, fields(3));
    let r = channel_of(line, Field::R, fields(4));
    let g = channel_of(line, Field::G, fields(5));
    let b = channel_of(line, Field::B, fields(6));
    if px is Err {
        Err(px->Err_0)
    } else if py is Err {
        Err(py->Err_0)
    } else if pz is Err {
        Err(pz->Err_0)
    } else if i is Err {
        Err(i->Err_0)
    } else if r is Err {
        Err(r->Err_0)
    } else if g is Err {
        Err(g->Err_0)
    } else if b is Err {
        Err(b->Err_0)
    } else {
        Ok(
            PtsPoint {
                point: Vec3 { x: px->Ok_0, y: py->Ok_0, z: pz->Ok_0 },
                intensity: i->Ok_0,
                rgb: Vec3 { x: r->Ok_0, y: g->Ok_0, z: b->Ok_0 },
            },
        )
    }
}

/// The record that `tokens` make when they are the fields of line number
/// `line`, and `x`, `y` and `z` are what decoding the first three gave.
pub open spec fn record_from(
    line: usize,
    tokens: Seq<Seq<char>>,
    x: Option<u32>,
    y: Option<u32>,
    z: Option<u32>,
) -> Result<PtsPoint, Failure> {
    record_of_fields(line, |n: nat| token_at(tokens, n), x, y, z)
}

/// The record on the line `text`, which is line number `line`, when `x`, `y`
/// and `z` are what decoding its first three fields gave.
pub open spec fn record_of(
    line: usize,
    text: Seq<char>,
    x: Option<u32>,
    y: Option<u32>,
    z: Option<u32>,
) -> Result<PtsPoint, Failure> {
    record_of_fields(line, |n: nat| field(strip_terminator(text), n), x, y, z)
}

fn missing<T>(line: usize, field: Field) -> (r: Result<T, LoadError>)
    ensures
        outcome(r) == Err::<T, Failure>(Failure::MissingField { line, field }),
{
    Err(LoadError::MissingField { line, field })
}

fn invalid<T>(line: usize, field: Field, token: &str) -> (r: Result<T, LoadError>)
    ensures
        outcome(r) == Err::<T, Failure>(Failure::NumericParse { line, field, token: token@ }),
{
    Err(LoadError::NumericParse { line, field, token: String::from_str(token) })
}

fn position(line: usize, field: Field, tokens: &Vec<&str>, n: usize, decoded: Option<u32>) -> (r:
    Result<u32, LoadError>)
    ensures
        outcome(r) == position_of(line, field, token_at(texts(tokens@), n as nat), decoded),
{
    if n >= tokens.len() {
        return missing(line, field);
    }
    match decoded {
        Some(bits) => Ok(bits),
        None => invalid(line, field, tokens[n]),
    }
}

fn intensity(line: usize, tokens: &Vec<&str>) -> (r: Result<i32, LoadError>)
    ensures
        outcome(r) == intensity_of(line, token_at(texts(tokens@), 3)),
{
    if 3 >= tokens.len() {
        return missing(line, Field::Intensity);
    }
    match parse_i32(tokens[3]) {
        Some(v) => Ok(v),
        None => invalid(line, Field::Intensity, tokens[3]),
    }
}

fn channel(line: usize, field: Field, tokens: &Vec<&str>, n: usize) -> (r: Result<u8, LoadError>)
    ensures
        outcome(r) == channel_of(line, field, token_at(texts(tokens@), n as nat)),
{
    if n >= tokens.len() {
        return missing(line, field);
    }
    match parse_u8(tokens[n]) {
        Some(v) => Ok(v),
        None => invalid(line, field, tokens[n]),
    }
}

/// Makes the record of line number `line` from its fields. `x`, `y` and `z`
/// are the bit patterns that decoding the first three fields gave, or `None`
/// for a field that is no number; one for a field that the line does not have
/// is not looked at.
pub fn build_record(
    line: usize,
    tokens: &Vec<&str>,
    x: Option<u32>,
    y: Option<u32>,
    z: Option<u32>,
) -> (r: Result<PtsPoint, LoadError>)
    ensures
        outcome(r) == record_from(line, texts(tokens@), x, y, z),
{
    let px = match position(line, Field::X, tokens, 0, x) {
        Ok(v) => v,
        Err(e) => { return Err(e); },
    };
    let py = match position(line, Field::Y, tokens, 1, y) {
        Ok(v) => v,
        Err(e) => { return Err(e); },
    };
    let pz = match position(line, Field::Z, tokens, 2, z) {
        Ok(v) => v,
        Err(e) => { return Err(e); },
    };
    let i = match intensity(line, tokens) {
        Ok(v) => v,
        Err(e) => { return Err(e); },
    };
    let r = match channel(line, Field::R, tokens, 4) {
        Ok(v) => v,
        Err(e) => { return Err(e); },
    };
    let g = match channel(line, Field::G, tokens, 5) {
        Ok(v) => v,
        Err(e) => { return Err(e); },
    };
    let b = match channel(line, Field::B, tokens, 6) {
        Ok(v) => v,
        Err(e) => { return Err(e); },
    };
    Ok(PtsPoint { point: Vec3 { x: px, y: py, z: pz }, intensity: i, rgb: Vec3 { x: r, y: g, z: b } })
}

/// Made from the fields of a line, a record is the record of that line.
pub proof fn lemma_record_of_split(
    line: usize,
    text: Seq<char>,
    tokens: Seq<Seq<char>>,
    x: Option<u32>,
    y: Option<u32>,
    z: Option<u32>,
)
    requires
        is_split(text, tokens),
    ensures
        record_from(line, tokens, x, y, z) == record_of(line, text, x, y, z),
{
    let s = strip_terminator(text);
    assert(field(s, 0) == token_at(tokens, 0));
    assert(field(s, 1) == token_at(tokens, 1));
    assert(field(s, 2) == token_at(tokens, 2));
    assert(field(s, 3) == token_at(tokens, 3));
    assert(field(s, 4) == token_at(tokens, 4));
    assert(field(s, 5) == token_at(tokens, 5));
    assert(field(s, 6) == token_at(tokens, 6));
}

/// Reads the record on the line `text`, which is line number `line`. `x`, `y`
/// and `z` are as for `build_record`.
pub fn parse_record(line: usize, text: &str, x: Option<u32>, y: Option<u32>, z: Option<u32>) -> (r:
    Result<PtsPoint, LoadError>)
    ensures
        outcome(r) == record_of(line, text@, x, y, z),
{
    let tokens = split_fields(text);
    proof {
        lemma_record_of_split(line, text@, texts(tokens@), x, y, z);
    }
    build_record(line, &tokens, x, y, z)
}

/// The failure of an outcome, if it is one.
pub open spec fn failure_of<T>(r: Result<T, Failure>) -> Option<Failure> {
    match r {
        Ok(_) => None,
        Err(e) => Some(e),
    }
}

/// What is wrong with the field `which` of the line `text`, taken by itself.
pub open spec fn field_failure(
    line: usize,
    text: Seq<char>,
    which: Field,
    x: Option<u32>,
    y: Option<u32>,
    z: Option<u32>,
) -> Option<Failure> {
    let token = field(strip_terminator(text), which.index());
    match which {
        Field::X => failure_of(position_of(line, which, token, x)),
        Field::Y => failure_of(position_of(line, which, token, y)),
        Field::Z => failure_of(position_of(line, which, token, z)),
        Field::Intensity => failure_of(intensity_of(line, token)),
        Field::R => failure_of(channel_of(line, which, token)),
        Field::G => failure_of(channel_of(line, which, token)),
        Field::B => failure_of(channel_of(line, which, token)),
    }
}

/// A line fails with what is wrong with the first of its fields, in the
/// order of the line, with which anything is wrong.
pub proof fn lemma_first_field_failure(
    line: usize,
    text: Seq<char>,
    which: Field,
    x: Option<u32>,
    y: Option<u32>,
    z: Option<u32>,
)
    requires
        field_failure(line, text, which, x, y, z) is Some,
        forall|w: Field|
            w.index() < which.index() ==> #[trigger] field_failure(line, text, w, x, y, z) is None,
    ensures
        record_of(line, text, x, y, z) == Err::<PtsPoint, Failure>(
            field_failure(line, text, which, x, y, z)->0,
        ),
{
    assert(Field::X.index() < which.index() ==> field_failure(line, text, Field::X, x, y, z) is None);
    assert(Field::Y.index() < which.index() ==> field_failure(line, text, Field::Y, x, y, z) is None);
    assert(Field::Z.index() < which.index() ==> field_failure(line, text, Field::Z, x, y, z) is None);
    assert(Field::Intensity.index() < which.index() ==> field_failure(
        line,
        text,
        Field::Intensity,
        x,
        y,
        z,
    ) is None);
    assert(Field::R.index() < which.index() ==> field_failure(line, text, Field::R, x, y, z) is None);
    assert(Field::G.index() < which.index() ==> field_failure(line, text, Field::G, x, y, z) is None);
}

/// A line that ends before the field `which`, and whose fields before it are
/// all values of their kinds, fails for want of `which`.
pub proof fn lemma_missing_field(
    line: usize,
    text: Seq<char>,
    which: Field,
    x: Option<u32>,
    y: Option<u32>,
    z: Option<u32>,
)
    requires
        field(strip_terminator(text), which.index()) is None,
        forall|w: Field|
            w.index() < which.index() ==> #[trigger] field_failure(line, text, w, x, y, z) is None,
    ensures
        record_of(line, text, x, y, z) == Err::<PtsPoint, Failure>(
            Failure::MissingField { line, field: which },
        ),
{
    lemma_first_field_failure(line, text, which, x, y, z);
}

/// A line on which `which` is the first field that is no value of its kind,
/// with every field before it in order, fails with that field's name and its
/// text, and gives no record.
pub proof fn lemma_invalid_field(
    line: usize,
    text: Seq<char>,
    which: Field,
    x: Option<u32>,
    y: Option<u32>,
    z: Option<u32>,
)
    requires
        field(strip_terminator(text), which.index()) is Some,
        field_failure(line, text, which, x, y, z) is Some,
        forall|w: Field|
            w.index() < which.index() ==> #[trigger] field_failure(line, text, w, x, y, z) is None,
    ensures
        record_of(line, text, x, y, z) == Err::<PtsPoint, Failure>(
            Failure::NumericParse {
                line,
                field: which,
                token: field(strip_terminator(text), which.index())->0,
            },
        ),
{
    lemma_first_field_failure(line, text, which, x, y, z);
}

/// A line gives a record exactly when nothing is wrong with any of its
/// seven fields.
pub proof fn lemma_record_needs_all_fields(
    line: usize,
    text: Seq<char>,
    x: Option<u32>,
    y: Option<u32>,
    z: Option<u32>,
)
    ensures
        record_of(line, text, x, y, z) is Ok <==> forall|w: Field| #[trigger]
            field_failure(line, text, w, x, y, z) is None,
{
    if record_of(line, text, x, y, z) is Ok {
        assert forall|w: Field| #[trigger] field_failure(line, text, w, x, y, z) is None by {}
    } else {
        let _ = field_failure(line, text, Field::X, x, y, z);
        let _ = field_failure(line, text, Field::Y, x, y, z);
        let _ = field_failure(line, text, Field::Z, x, y, z);
        let _ = field_failure(line, text, Field::Intensity, x, y, z);
        let _ = field_failure(line, text, Field::R, x, y, z);
        let _ = field_failure(line, text, Field::G, x, y, z);
        let _ = field_failure(line, text, Field::B, x, y, z);
    }
}

/// The message of a failed header ends with the text that was found in place
/// of the count, and that of a document which could not be read with its
/// path.
pub proof fn lemma_message_holds_text(path: Seq<char>, raw: Seq<char>)
    ensures
        ({
            let m = (Failure::Header { path, raw }).message();
            m.len() >= raw.len() && m.subrange(m.len() - raw.len(), m.len() as int) == raw
        }),
        ({
            let m = (Failure::Io { path }).message();
            m.len() >= path.len() && m.subrange(m.len() - path.len(), m.len() as int) == path
        }),
{
    let m = (Failure::Header { path, raw }).message();
    assert(m.subrange(m.len() - raw.len(), m.len() as int) =~= raw);
    let k = (Failure::Io { path }).message();
    assert(k.subrange(k.len() - path.len(), k.len() as int) =~= path);
}

/// The line that holds `tokens` as its fields and ends with a line feed.
pub open spec fn line_of(tokens: Seq<Seq<char>>) -> Seq<char> {
    joined(tokens) + seq!['\n']
}

/// A number in decimal notation holds no space, and ends with a digit.
pub proof fn lemma_number_is_one_field(s: Seq<char>, minus_allowed: bool)
    requires
        magnitude_part(s, minus_allowed).len() > 0,
        all_digits(magnitude_part(s, minus_allowed)),
    ensures
        no_space(s),
        s.len() > 0,
        is_digit(s.last()),
{
    let digits = magnitude_part(s, minus_allowed);
    if digits == s {
        assert forall|i: int| 0 <= i < s.len() implies s[i] != ' ' by {
            assert(is_digit(digits[i]));
        }
    } else {
        assert forall|i: int| 0 <= i < s.len() implies s[i] != ' ' by {
            if i > 0 {
                assert(is_digit(digits[i - 1]));
            }
        }
        assert(is_digit(digits[digits.len() - 1]));
    }
}

/// Written out in the format, a record reads back as itself: a line that
/// holds, with single spaces between them, three position fields that decode
/// to the bits of the record's position, and its intensity and its colours in
/// decimal notation, gives that record. What text a position field holds,
/// and what it decodes to, is the caller's to know.
pub proof fn lemma_written_record_reads_back(line: usize, tokens: Seq<Seq<char>>, p: PtsPoint)
    requires
        tokens.len() == 7,
        no_space(tokens[0]),
        no_space(tokens[1]),
        no_space(tokens[2]),
        signed_of(tokens[3], i32::MIN as int, i32::MAX as int) == Some(p.intensity as int),
        unsigned_of(tokens[4], 255) == Some(p.rgb.x as nat),
        unsigned_of(tokens[5], 255) == Some(p.rgb.y as nat),
        unsigned_of(tokens[6], 255) == Some(p.rgb.z as nat),
    ensures
        record_of(line, line_of(tokens), Some(p.point.x), Some(p.point.y), Some(p.point.z))
            == Ok::<PtsPoint, Failure>(p),
{
    lemma_number_is_one_field(tokens[3], true);
    lemma_number_is_one_field(tokens[4], false);
    lemma_number_is_one_field(tokens[5], false);
    lemma_number_is_one_field(tokens[6], false);
    assert(tokens.last() == tokens[6]);
    lemma_joined_ends_as_last(tokens);
    let body = joined(tokens);
    let text = line_of(tokens);
    assert(text.drop_last() =~= body);
    assert(strip_terminator(text) == body);
    assert forall|i: int| 0 <= i < tokens.len() implies no_space(#[trigger] tokens[i]) by {}
    lemma_fields_of_joined(tokens, 0);
    lemma_fields_of_joined(tokens, 1);
    lemma_fields_of_joined(tokens, 2);
    lemma_fields_of_joined(tokens, 3);
    lemma_fields_of_joined(tokens, 4);
    lemma_fields_of_joined(tokens, 5);
    lemma_fields_of_joined(tokens, 6);
}

} // verus!
