//! The `response` element of a multi-status answer and the elements it
//! holds: `href`, `status`, `propstat` and `responsedescription`.

use vstd::prelude::*;

use super::super::value::{
    dav_key, lemma_insert_new, lemma_list_value_occurrences, lemma_model_get_at,
    lemma_model_get_none, lemma_read_all_each, lemma_values_model, list_value, models,
    occurrences_of, spec_get, spec_insert, spec_list_value, spec_read_all, value_model,
    values_model, NameKey, Value, ValueMap, ValueModel,
};
use super::super::{Element, FromValue, XmlError};
use super::prop::Properties;
use crate::text::{
    chars_eq, chars_of, decimal, digit_char, leading_ws, push_decimal, string_of, trailing_ws, trim,
    trim_bounds,
};

verus! {

/// The `href` element: a URI, as written.
#[derive(Clone, Debug, PartialEq, Eq)]
pub struct Href(pub String);

impl Element for Href {
    open spec fn spec_local_name() -> Seq<char> {
        "href"@
    }

    fn local_name() -> (name: String) {
        "href".to_owned()
    }
}

impl FromValue for Href {
    type Model = Seq<char>;

    open spec fn model(&self) -> Seq<char> {
        self.0@
    }

    /// The text of the element.
    open spec fn spec_from_value(value: ValueModel) -> Result<Seq<char>, XmlError> {
        match value {
            ValueModel::Text(s) => Ok(s),
            _ => Err(XmlError::InvalidValueType),
        }
    }

    fn from_value(value: &Value) -> (r: Result<Self, XmlError>) {
        match value {
            Value::Text(s) => Ok(Href(s.clone())),
            _ => Err(XmlError::InvalidValueType),
        }
    }
}

impl From<Href> for Value {
    /// The URI as text.
    fn from(href: Href) -> (v: Value)
        ensures
            value_model(v) == ValueModel::Text(href.0@),
    {
        Value::Text(href.0)
    }
}

impl vstd::std_specs::convert::FromSpecImpl<Href> for Value {
    open spec fn obeys_from_spec() -> bool {
        true
    }

    open spec fn from_spec(href: Href) -> Value {
        Value::Text(href.0)
    }
}

/// The `responsedescription` element: a human-readable text.
#[derive(Clone, Debug, PartialEq, Eq)]
pub struct ResponseDescription(pub String);

impl Element for ResponseDescription {
    open spec fn spec_local_name() -> Seq<char> {
        "responsedescription"@
    }

    fn local_name() -> (name: String) {
        "responsedescription".to_owned()
    }
}

impl FromValue for ResponseDescription {
    type Model = Seq<char>;

    open spec fn model(&self) -> Seq<char> {
        self.0@
    }

    /// The text of the element.
    open spec fn spec_from_value(value: ValueModel) -> Result<Seq<char>, XmlError> {
        match value {
            ValueModel::Text(s) => Ok(s),
            _ => Err(XmlError::InvalidValueType),
        }
    }

    fn from_value(value: &Value) -> (r: Result<Self, XmlError>) {
        match value {
            Value::Text(s) => Ok(ResponseDescription(s.clone())),
            _ => Err(XmlError::InvalidValueType),
        }
    }
}

impl From<ResponseDescription> for Value {
    /// The description as text.
    fn from(description: ResponseDescription) -> (v: Value)
        ensures
            value_model(v) == ValueModel::Text(description.0@),
    {
        Value::Text(description.0)
    }
}

impl vstd::std_specs::convert::FromSpecImpl<ResponseDescription> for Value {
    open spec fn obeys_from_spec() -> bool {
        true
    }

    open spec fn from_spec(description: ResponseDescription) -> Value {
        Value::Text(description.0)
    }
}

/// The index of the first space of `s`, or its length.
pub open spec fn index_of_space(s: Seq<char>) -> nat
    decreases s.len(),
{
    if s.len() == 0 {
        0
    } else if s[0] == ' ' {
        0
    } else {
        1 + index_of_space(s.drop_first())
    }
}

/// The HTTP versions a status line may name.
pub open spec fn is_http_version(v: Seq<char>) -> bool {
    ||| v == "HTTP/0.9"@
    ||| v == "HTTP/1.0"@
    ||| v == "HTTP/1.1"@
    ||| v == "HTTP/2"@
    ||| v == "HTTP/2.0"@
    ||| v == "HTTP/3"@
    ||| v == "HTTP/3.0"@
}

pub open spec fn is_ascii_digit(c: char) -> bool {
    '0' <= c <= '9'
}

/// A status code: three digits, the first one not `0`.
pub open spec fn spec_status_code(t: Seq<char>) -> Option<u16> {
    if t.len() == 3 && '1' <= t[0] <= '9' && is_ascii_digit(t[1]) && is_ascii_digit(t[2]) {
        Some(((t[0] as int - 48) * 100 + (t[1] as int - 48) * 10 + (t[2] as int - 48)) as u16)
    } else {
        None
    }
}

/// The status code of a status line `VERSION CODE [REASON]`, once trimmed.
pub open spec fn spec_status_line(line: Seq<char>) -> Option<u16> {
    let t = trim(line);
    let i = index_of_space(t) as int;
    if i < t.len() && is_http_version(t.take(i)) {
        let rest = t.skip(i + 1);
        spec_status_code(rest.take(index_of_space(rest) as int))
    } else {
        None
    }
}

proof fn lemma_index_of_space(s: Seq<char>)
    ensures
        index_of_space(s) <= s.len(),
        forall|j: int| 0 <= j < index_of_space(s) ==> #[trigger] s[j] != ' ',
        index_of_space(s) < s.len() ==> s[index_of_space(s) as int] == ' ',
    decreases s.len(),
{
    if s.len() > 0 && s[0] != ' ' {
        lemma_index_of_space(s.drop_first());
        assert forall|j: int| 0 <= j < index_of_space(s) implies #[trigger] s[j] != ' ' by {
            if j > 0 {
                assert(s[j] == s.drop_first()[j - 1]);
            }
        }
    }
}

fn find_space(s: &[char], from: usize, to: usize) -> (i: usize)
    requires
        from <= to <= s@.len(),
    ensures
        from + index_of_space(s@.subrange(from as int, to as int)) == i,
        from <= i <= to,
{
    let ghost w = s@.subrange(from as int, to as int);
    proof {
        lemma_index_of_space(w);
    }
    let mut i = from;
    while i < to && s[i] != ' '
        invariant
            from <= i <= to,
            to <= s@.len(),
            w == s@.subrange(from as int, to as int),
            i - from <= index_of_space(w),
            index_of_space(w) <= w.len(),
            forall|j: int| 0 <= j < index_of_space(w) ==> #[trigger] w[j] != ' ',
            index_of_space(w) < w.len() ==> w[index_of_space(w) as int] == ' ',
        decreases to - i,
    {
        assert(w[i - from] == s@[i as int]);
        i = i + 1;
    }
    proof {
        if i < to {
            assert(w[i - from] == s@[i as int]);
        }
    }
    i
}

fn is_version(v: &[char]) -> (r: bool)
    ensures
        r == is_http_version(v@),
{
    chars_eq(v, chars_of("HTTP/0.9").as_slice()) || chars_eq(v, chars_of("HTTP/1.0").as_slice())
        || chars_eq(v, chars_of("HTTP/1.1").as_slice()) || chars_eq(v, chars_of("HTTP/2").as_slice())
        || chars_eq(v, chars_of("HTTP/2.0").as_slice()) || chars_eq(v, chars_of("HTTP/3").as_slice())
        || chars_eq(v, chars_of("HTTP/3.0").as_slice())
}

/// Reads the status code of a status line such as `HTTP/1.1 200 OK`.
pub fn parse_status_line(line: &str) -> (r: Option<u16>)
    ensures
        r == spec_status_line(line@),
{
    let chars = chars_of(line);
    let (start, end) = trim_bounds(chars.as_slice());
    let ghost t = chars@.subrange(start as int, end as int);
    let i = find_space(chars.as_slice(), start, end);
    assert(t.take(i - start) =~= chars@.subrange(start as int, i as int));
    if i >= end {
        return None;
    }
    if !is_version(&chars.as_slice()[start..i]) {
        return None;
    }
    let j = find_space(chars.as_slice(), i + 1, end);
    let ghost rest = t.skip(i - start + 1);
    assert(rest =~= chars@.subrange(i + 1, end as int));
    assert(rest.take(j - (i + 1)) =~= chars@.subrange(i + 1, j as int));
    if j - (i + 1) != 3 {
        return None;
    }
    let a = chars[i + 1];
    let b = chars[i + 2];
    let c = chars[i + 3];
    if '1' <= a && a <= '9' && '0' <= b && b <= '9' && '0' <= c && c <= '9' {
        Some(((a as u32 - 48) * 100 + (b as u32 - 48) * 10 + (c as u32 - 48)) as u16)
    } else {
        None
    }
}

/// The `status` element: an HTTP status line, read as its status code.
#[derive(Clone, Copy, Debug, PartialEq, Eq)]
pub struct Status {
    pub code: u16,
}

impl Status {
    /// Whether the status is a success (2xx).
    pub fn is_success(&self) -> (r: bool)
        ensures
            r == (200 <= self.code <= 299),
    {
        200 <= self.code && self.code <= 299
    }
}

impl Element for Status {
    open spec fn spec_local_name() -> Seq<char> {
        "status"@
    }

    fn local_name() -> (name: String) {
        "status".to_owned()
    }
}

impl FromValue for Status {
    type Model = u16;

    open spec fn model(&self) -> u16 {
        self.code
    }

    /// A text holding a status line.
    open spec fn spec_from_value(value: ValueModel) -> Result<u16, XmlError> {
        match value {
            ValueModel::Text(s) => match spec_status_line(s) {
                Some(code) => Ok(code),
                None => Err(XmlError::InvalidElement),
            },
            _ => Err(XmlError::InvalidValueType),
        }
    }

    fn from_value(value: &Value) -> (r: Result<Self, XmlError>) {
        match value {
            Value::Text(s) => match parse_status_line(s.as_str()) {
                Some(code) => Ok(Status { code }),
                None => Err(XmlError::InvalidElement),
            },
            _ => Err(XmlError::InvalidValueType),
        }
    }
}

/// The status line written for a status code: `HTTP/1.1` and the code.
pub open spec fn status_text(code: u16) -> Seq<char> {
    "HTTP/1.1 "@ + decimal(code as nat)
}

impl From<Status> for Value {
    /// The status line `HTTP/1.1 CODE`.
    fn from(status: Status) -> (v: Value)
        ensures
            value_model(v) == ValueModel::Text(status_text(status.code)),
    {
        let mut line = chars_of("HTTP/1.1 ");
        push_decimal(&mut line, status.code as u64);
        Value::Text(string_of(line.as_slice()))
    }
}

impl vstd::std_specs::convert::FromSpecImpl<Status> for Value {
    /// The text of the value is given by the `ensures` of `from`, over its
    /// model; no exact value is given here.
    open spec fn obeys_from_spec() -> bool {
        false
    }

    open spec fn from_spec(status: Status) -> Value {
        Value::Empty
    }
}

/// Reading back the status line written for a three-digit status code
/// gives the code.
pub proof fn lemma_status_round_trip(code: u16)
    requires
        100 <= code <= 999,
    ensures
        Status::spec_from_value(ValueModel::Text(status_text(code))) == Ok::<u16, XmlError>(code),
{
    reveal_strlit("HTTP/1.1 ");
    reveal_strlit("HTTP/1.1");
    let a = (code / 100) as nat;
    let b = ((code / 10) % 10) as nat;
    let c = (code % 10) as nat;
    assert(code as nat == a * 100 + b * 10 + c) by (nonlinear_arith)
        requires
            a == code / 100,
            b == (code / 10) % 10,
            c == code % 10,
    ;
    reveal_with_fuel(decimal, 3);
    let digits = seq![digit_char(a), digit_char(b), digit_char(c)];
    assert(decimal(code as nat) =~= digits);
    let line = status_text(code);
    assert(line =~= seq!['H', 'T', 'T', 'P', '/', '1', '.', '1', ' '] + digits);
    assert(leading_ws(line) == 0);
    assert(trailing_ws(line.skip(0)) == 0);
    assert(trim(line) =~= line);
    lemma_index_of_space(line);
    assert(line[8] == ' ');
    assert forall|j: int| 0 <= j < 8 implies line[j] != ' ' by {
        assert(line[j] == seq!['H', 'T', 'T', 'P', '/', '1', '.', '1', ' '][j]);
    }
    assert(index_of_space(line) == 8);
    assert(line.take(8) =~= "HTTP/1.1"@);
    let rest = line.skip(9);
    assert(rest =~= digits);
    lemma_index_of_space(rest);
    assert forall|j: int| 0 <= j < 3 implies rest[j] != ' ' by {
        assert(rest[j] == digits[j]);
    }
    assert(index_of_space(rest) == 3);
    assert(rest.take(3) =~= digits);
}

/// A child element that may be absent.
pub open spec fn transpose<M>(o: Option<Result<M, XmlError>>) -> Result<Option<M>, XmlError> {
    match o {
        None => Ok(None),
        Some(Ok(x)) => Ok(Some(x)),
        Some(Err(e)) => Err(e),
    }
}

/// A child element that must be present.
pub open spec fn required<M>(o: Option<Result<M, XmlError>>) -> Result<M, XmlError> {
    match o {
        Some(x) => x,
        None => Err(XmlError::MissingElement),
    }
}

fn optional<P: FromValue>(o: Option<Result<P, XmlError>>) -> (r: Result<Option<P>, XmlError>)
    ensures
        match r {
            Ok(Some(x)) => transpose(super::super::value::option_result_model(o)) == Ok::<
                Option<P::Model>,
                XmlError,
            >(Some(x.model())),
            Ok(None) => transpose(super::super::value::option_result_model(o)) == Ok::<
                Option<P::Model>,
                XmlError,
            >(None),
            Err(e) => transpose(super::super::value::option_result_model(o)) == Err::<
                Option<P::Model>,
                XmlError,
            >(e),
        },
{
    match o {
        None => Ok(None),
        Some(Ok(x)) => Ok(Some(x)),
        Some(Err(e)) => Err(e),
    }
}

/// The model of an optional description.
pub open spec fn description_model(d: Option<ResponseDescription>) -> Option<Seq<char>> {
    match d {
        Some(x) => Some(x.0@),
        None => None,
    }
}

/// What a `propstat` element holds.
pub struct PropstatModel {
    pub prop: Seq<(NameKey, ValueModel)>,
    pub status: u16,
    pub description: Option<Seq<char>>,
}

/// The `propstat` element: properties and the status they were read with.
#[derive(Debug)]
pub struct Propstat {
    pub prop: Properties,
    pub status: Status,
    pub responsedescription: Option<ResponseDescription>,
}

impl Element for Propstat {
    open spec fn spec_local_name() -> Seq<char> {
        "propstat"@
    }

    fn local_name() -> (name: String) {
        "propstat".to_owned()
    }
}

impl FromValue for Propstat {
    type Model = PropstatModel;

    open spec fn model(&self) -> PropstatModel {
        PropstatModel {
            prop: self.prop.0.model(),
            status: self.status.code,
            description: description_model(self.responsedescription),
        }
    }

    /// Child elements with a required `prop` and `status`, and an optional
    /// `responsedescription`, read in that order.
    open spec fn spec_from_value(value: ValueModel) -> Result<PropstatModel, XmlError> {
        match value {
            ValueModel::Elements(m) => match required(spec_get::<Properties>(m)) {
                Err(e) => Err(e),
                Ok(prop) => match required(spec_get::<Status>(m)) {
                    Err(e) => Err(e),
                    Ok(status) => match transpose(spec_get::<ResponseDescription>(m)) {
                        Err(e) => Err(e),
                        Ok(description) => Ok(PropstatModel { prop, status, description }),
                    },
                },
            },
            _ => Err(XmlError::InvalidValueType),
        }
    }

    fn from_value(value: &Value) -> (r: Result<Self, XmlError>) {
        match value {
            Value::Elements(m) => {
                let prop = m.get_required::<Properties>()?;
                let status = m.get_required::<Status>()?;
                let responsedescription = optional(m.get::<ResponseDescription>())?;
                Ok(Propstat { prop, status, responsedescription })
            },
            _ => Err(XmlError::InvalidValueType),
        }
    }
}

/// What a `response` element holds.
pub enum ResponseModel {
    Propstat { href: Seq<char>, propstat: Seq<PropstatModel>, description: Option<Seq<char>> },
    Status { href: Seq<Seq<char>>, status: u16, description: Option<Seq<char>> },
}

/// The `response` element: the properties of one resource, or the status
/// of one or more resources.
#[derive(Debug)]
pub enum Response {
    Propstat {
        href: Href,
        propstat: Vec<Propstat>,
        responsedescription: Option<ResponseDescription>,
    },
    Status { href: Vec<Href>, status: Status, responsedescription: Option<ResponseDescription> },
}

impl Element for Response {
    open spec fn spec_local_name() -> Seq<char> {
        "response"@
    }

    fn local_name() -> (name: String) {
        "response".to_owned()
    }
}

impl FromValue for Response {
    type Model = ResponseModel;

    open spec fn model(&self) -> ResponseModel {
        match self {
            Response::Propstat { href, propstat, responsedescription } => ResponseModel::Propstat {
                href: href.0@,
                propstat: models(propstat@),
                description: description_model(*responsedescription),
            },
            Response::Status { href, status, responsedescription } => ResponseModel::Status {
                href: models(href@),
                status: status.code,
                description: description_model(*responsedescription),
            },
        }
    }

    /// Child elements: with `propstat` elements, a required `href`; without
    /// any, one `href` or more and a required `status`; an optional
    /// `responsedescription` either way.
    open spec fn spec_from_value(value: ValueModel) -> Result<ResponseModel, XmlError> {
        match value {
            ValueModel::Elements(m) => match spec_read_all::<Propstat>(
                occurrences_of(m, dav_key(Propstat::spec_local_name())),
            ) {
                Err(e) => Err(e),
                Ok(propstat) => if propstat.len() > 0 {
                    match required(spec_get::<Href>(m)) {
                        Err(e) => Err(e),
                        Ok(href) => match transpose(spec_get::<ResponseDescription>(m)) {
                            Err(e) => Err(e),
                            Ok(description) => Ok(
                                ResponseModel::Propstat { href, propstat, description },
                            ),
                        },
                    }
                } else {
                    match spec_read_all::<Href>(occurrences_of(m, dav_key(Href::spec_local_name()))) {
                        Err(e) => Err(e),
                        Ok(href) => if href.len() == 0 {
                            Err(XmlError::MissingElement)
                        } else {
                            match required(spec_get::<Status>(m)) {
                                Err(e) => Err(e),
                                Ok(status) => match transpose(spec_get::<ResponseDescription>(m)) {
                                    Err(e) => Err(e),
                                    Ok(description) => Ok(
                                        ResponseModel::Status { href, status, description },
                                    ),
                                },
                            }
                        },
                    }
                },
            },
            _ => Err(XmlError::InvalidValueType),
        }
    }

    fn from_value(value: &Value) -> (r: Result<Self, XmlError>) {
        match value {
            Value::Elements(m) => {
                let propstat = m.get_all::<Propstat>()?;
                if propstat.len() > 0 {
                    let href = m.get_required::<Href>()?;
                    let responsedescription = optional(m.get::<ResponseDescription>())?;
                    Ok(Response::Propstat { href, propstat, responsedescription })
                } else {
                    let href = m.get_all::<Href>()?;
                    if href.len() == 0 {
                        return Err(XmlError::MissingElement);
                    }
                    let status = m.get_required::<Status>()?;
                    let responsedescription = optional(m.get::<ResponseDescription>())?;
                    Ok(Response::Status { href, status, responsedescription })
                }
            },
            _ => Err(XmlError::InvalidValueType),
        }
    }
}

/// The child elements `m`, with a `responsedescription` when there is one.
pub open spec fn with_description(m: Seq<(NameKey, ValueModel)>, d: Option<Seq<char>>) -> Seq<
    (NameKey, ValueModel),
> {
    match d {
        Some(t) => spec_insert(
            m,
            dav_key(ResponseDescription::spec_local_name()),
            ValueModel::Text(t),
        ),
        None => m,
    }
}

/// The value written for a `propstat` element: its `prop`, its `status`
/// and its `responsedescription` when it has one.
pub open spec fn propstat_value(p: PropstatModel) -> ValueModel {
    ValueModel::Elements(
        with_description(
            spec_insert(
                spec_insert(
                    Seq::empty(),
                    dav_key(Properties::spec_local_name()),
                    ValueModel::Elements(p.prop),
                ),
                dav_key(Status::spec_local_name()),
                ValueModel::Text(status_text(p.status)),
            ),
            p.description,
        ),
    )
}

/// The values written for `propstat` elements.
pub open spec fn propstat_values(ps: Seq<PropstatModel>) -> Seq<ValueModel> {
    ps.map_values(|p: PropstatModel| propstat_value(p))
}

/// The values written for `href` elements.
pub open spec fn href_values(hs: Seq<Seq<char>>) -> Seq<ValueModel> {
    hs.map_values(|h: Seq<char>| ValueModel::Text(h))
}

/// The value written for a `response` element: its `href`, its
/// `propstat` elements or its `status`, and its `responsedescription` when
/// it has one.
pub open spec fn response_value(r: ResponseModel) -> ValueModel {
    match r {
        ResponseModel::Propstat { href, propstat, description } => ValueModel::Elements(
            with_description(
                spec_insert(
                    spec_insert(Seq::empty(), dav_key(Href::spec_local_name()), ValueModel::Text(href)),
                    dav_key(Propstat::spec_local_name()),
                    spec_list_value(propstat_values(propstat)),
                ),
                description,
            ),
        ),
        ResponseModel::Status { href, status, description } => ValueModel::Elements(
            with_description(
                spec_insert(
                    spec_insert(
                        Seq::empty(),
                        dav_key(Href::spec_local_name()),
                        spec_list_value(href_values(href)),
                    ),
                    dav_key(Status::spec_local_name()),
                    ValueModel::Text(status_text(status)),
                ),
                description,
            ),
        ),
    }
}

/// Adds the `responsedescription` `d` to `map`, when there is one.
pub(crate) fn insert_description(map: &mut ValueMap, d: Option<ResponseDescription>)
    ensures
        final(map).model() == with_description(old(map).model(), description_model(d)),
{
    match d {
        Some(d) => map.insert::<ResponseDescription>(Value::from(d)),
        None => {},
    }
}

impl From<Propstat> for Value {
    fn from(propstat: Propstat) -> (v: Value)
        ensures
            value_model(v) == propstat_value(propstat.model()),
    {
        let Propstat { prop, status, responsedescription } = propstat;
        let mut map = ValueMap::new();
        assert(map.model() =~= Seq::<(NameKey, ValueModel)>::empty());
        map.insert::<Properties>(Value::from(prop));
        map.insert::<Status>(Value::from(status));
        insert_description(&mut map, responsedescription);
        Value::Elements(map)
    }
}

impl vstd::std_specs::convert::FromSpecImpl<Propstat> for Value {
    /// The value is given by the `ensures` of `from`, over its model; no
    /// exact value is given here.
    open spec fn obeys_from_spec() -> bool {
        false
    }

    open spec fn from_spec(propstat: Propstat) -> Value {
        Value::Empty
    }
}

/// The values of `propstat` elements, in order.
fn values_of_propstats(propstats: Vec<Propstat>) -> (values: Vec<Value>)
    ensures
        values_model(values@) == propstat_values(models(propstats@)),
{
    let ghost all = propstats@;
    let mut rest = propstats;
    let mut values: Vec<Value> = Vec::new();
    let ghost mut k: int = 0;
    while rest.len() > 0
        invariant
            0 <= k <= all.len(),
            rest@ == all.skip(k),
            values_model(values@) == propstat_values(models(all.take(k))),
        decreases rest.len(),
    {
        let p = rest.remove(0);
        assert(p == all[k]);
        let ghost before = values@;
        let value = Value::from(p);
        let ghost vm = value_model(value);
        values.push(value);
        proof {
            lemma_values_model(before);
            lemma_values_model(values@);
            let want = propstat_values(models(all.take(k + 1)));
            assert forall|j: int| 0 <= j < k + 1 implies values_model(values@)[j] == want[j] by {
                if j < k {
                    assert(values@[j] == before[j]);
                    assert(values_model(before)[j] == propstat_values(models(all.take(k)))[j]);
                } else {
                    assert(values@[j] == value);
                }
            }
            assert(values_model(values@) =~= want);
            k = k + 1;
        }
        assert(rest@ =~= all.skip(k));
    }
    assert(all.take(k) =~= all);
    values
}

/// The values of `href` elements, in order.
fn values_of_hrefs(hrefs: Vec<Href>) -> (values: Vec<Value>)
    ensures
        values_model(values@) == href_values(models(hrefs@)),
{
    let ghost all = hrefs@;
    let mut rest = hrefs;
    let mut values: Vec<Value> = Vec::new();
    let ghost mut k: int = 0;
    while rest.len() > 0
        invariant
            0 <= k <= all.len(),
            rest@ == all.skip(k),
            values_model(values@) == href_values(models(all.take(k))),
        decreases rest.len(),
    {
        let h = rest.remove(0);
        assert(h == all[k]);
        let ghost before = values@;
        let value = Value::from(h);
        let ghost vm = value_model(value);
        values.push(value);
        proof {
            lemma_values_model(before);
            lemma_values_model(values@);
            let want = href_values(models(all.take(k + 1)));
            assert forall|j: int| 0 <= j < k + 1 implies values_model(values@)[j] == want[j] by {
                if j < k {
                    assert(values@[j] == before[j]);
                    assert(values_model(before)[j] == href_values(models(all.take(k)))[j]);
                } else {
                    assert(values@[j] == value);
                }
            }
            assert(values_model(values@) =~= want);
            k = k + 1;
        }
        assert(rest@ =~= all.skip(k));
    }
    assert(all.take(k) =~= all);
    values
}

impl From<Response> for Value {
    fn from(response: Response) -> (v: Value)
        ensures
            value_model(v) == response_value(response.model()),
    {
        let mut map = ValueMap::new();
        assert(map.model() =~= Seq::<(NameKey, ValueModel)>::empty());
        match response {
            Response::Propstat { href, propstat, responsedescription } => {
                map.insert::<Href>(Value::from(href));
                map.insert::<Propstat>(list_value(values_of_propstats(propstat)));
                insert_description(&mut map, responsedescription);
            },
            Response::Status { href, status, responsedescription } => {
                map.insert::<Href>(list_value(values_of_hrefs(href)));
                map.insert::<Status>(Value::from(status));
                insert_description(&mut map, responsedescription);
            },
        }
        Value::Elements(map)
    }
}

impl vstd::std_specs::convert::FromSpecImpl<Response> for Value {
    /// The value is given by the `ensures` of `from`, over its model; no
    /// exact value is given here.
    open spec fn obeys_from_spec() -> bool {
        false
    }

    open spec fn from_spec(response: Response) -> Value {
        Value::Empty
    }
}

/// The names of the elements a `propstat` or a `response` holds differ.
proof fn lemma_element_keys_differ()
    ensures
        dav_key(Properties::spec_local_name()) != dav_key(Status::spec_local_name()),
        dav_key(Properties::spec_local_name()) != dav_key(ResponseDescription::spec_local_name()),
        dav_key(Status::spec_local_name()) != dav_key(ResponseDescription::spec_local_name()),
        dav_key(Href::spec_local_name()) != dav_key(Propstat::spec_local_name()),
        dav_key(Href::spec_local_name()) != dav_key(Status::spec_local_name()),
        dav_key(Href::spec_local_name()) != dav_key(ResponseDescription::spec_local_name()),
        dav_key(Propstat::spec_local_name()) != dav_key(Status::spec_local_name()),
        dav_key(Propstat::spec_local_name()) != dav_key(ResponseDescription::spec_local_name()),
{
    reveal_strlit("prop");
    reveal_strlit("status");
    reveal_strlit("responsedescription");
    reveal_strlit("href");
    reveal_strlit("propstat");
    assert(Properties::spec_local_name().len() == 4);
    assert(Status::spec_local_name().len() == 6);
    assert(ResponseDescription::spec_local_name().len() == 19);
    assert(Href::spec_local_name().len() == 4);
    assert(Propstat::spec_local_name().len() == 8);
}

/// Reading back the value written for a `propstat` element with a
/// three-digit status code gives the element.
pub proof fn lemma_propstat_round_trip(p: PropstatModel)
    requires
        100 <= p.status <= 999,
    ensures
        Propstat::spec_from_value(propstat_value(p)) == Ok::<PropstatModel, XmlError>(p),
{
    lemma_element_keys_differ();
    lemma_status_round_trip(p.status);
    let kp = dav_key(Properties::spec_local_name());
    let ks = dav_key(Status::spec_local_name());
    let kd = dav_key(ResponseDescription::spec_local_name());
    let m0 = Seq::<(NameKey, ValueModel)>::empty();
    lemma_insert_new(m0, kp, ValueModel::Elements(p.prop));
    let m1 = m0.push((kp, ValueModel::Elements(p.prop)));
    lemma_insert_new(m1, ks, ValueModel::Text(status_text(p.status)));
    let m2 = m1.push((ks, ValueModel::Text(status_text(p.status))));
    let m = with_description(spec_insert(spec_insert(m0, kp, ValueModel::Elements(p.prop)), ks, ValueModel::Text(status_text(p.status))), p.description);
    match p.description {
        Some(t) => {
            lemma_insert_new(m2, kd, ValueModel::Text(t));
            lemma_model_get_at(m, kd, 2);
        },
        None => {
            lemma_model_get_none(m, kd);
        },
    }
    lemma_model_get_at(m, kp, 0);
    lemma_model_get_at(m, ks, 1);
}

/// A `response` element that can be written and read back: a `propstat`
/// response holds at least one `propstat`, a status response at least one
/// `href`, and every status code has three digits.
pub open spec fn is_writable_response(r: ResponseModel) -> bool {
    match r {
        ResponseModel::Propstat { propstat, .. } => propstat.len() > 0 && forall|i: int|
            0 <= i < propstat.len() ==> 100 <= (#[trigger] propstat[i]).status <= 999,
        ResponseModel::Status { href, status, .. } => href.len() > 0 && 100 <= status <= 999,
    }
}

/// Reading back the value written for a `response` element that can be
/// written gives the element.
pub proof fn lemma_response_round_trip(r: ResponseModel)
    requires
        is_writable_response(r),
    ensures
        Response::spec_from_value(response_value(r)) == Ok::<ResponseModel, XmlError>(r),
{
    lemma_element_keys_differ();
    let kh = dav_key(Href::spec_local_name());
    let kp = dav_key(Propstat::spec_local_name());
    let ks = dav_key(Status::spec_local_name());
    let kd = dav_key(ResponseDescription::spec_local_name());
    let m0 = Seq::<(NameKey, ValueModel)>::empty();
    match r {
        ResponseModel::Propstat { href, propstat, description } => {
            let vs = propstat_values(propstat);
            assert forall|i: int| 0 <= i < vs.len() implies !(#[trigger] vs[i] is List) by {
                assert(vs[i] == propstat_value(propstat[i]));
            }
            lemma_list_value_occurrences(vs);
            lemma_insert_new(m0, kh, ValueModel::Text(href));
            let m1 = m0.push((kh, ValueModel::Text(href)));
            lemma_insert_new(m1, kp, spec_list_value(vs));
            let m2 = m1.push((kp, spec_list_value(vs)));
            let m = with_description(
                spec_insert(spec_insert(m0, kh, ValueModel::Text(href)), kp, spec_list_value(vs)),
                description,
            );
            match description {
                Some(t) => {
                    lemma_insert_new(m2, kd, ValueModel::Text(t));
                    lemma_model_get_at(m, kd, 2);
                },
                None => {
                    lemma_model_get_none(m, kd);
                },
            }
            lemma_model_get_at(m, kh, 0);
            lemma_model_get_at(m, kp, 1);
            assert(occurrences_of(m, kp) == vs);
            assert forall|i: int| 0 <= i < vs.len() implies Propstat::spec_from_value(
                #[trigger] vs[i],
            ) == Ok::<PropstatModel, XmlError>(propstat[i]) by {
                lemma_propstat_round_trip(propstat[i]);
            }
            lemma_read_all_each::<Propstat>(vs, propstat);
        },
        ResponseModel::Status { href, status, description } => {
            let vs = href_values(href);
            assert forall|i: int| 0 <= i < vs.len() implies !(#[trigger] vs[i] is List) by {
                assert(vs[i] == ValueModel::Text(href[i]));
            }
            lemma_list_value_occurrences(vs);
            lemma_status_round_trip(status);
            lemma_insert_new(m0, kh, spec_list_value(vs));
            let m1 = m0.push((kh, spec_list_value(vs)));
            lemma_insert_new(m1, ks, ValueModel::Text(status_text(status)));
            let m2 = m1.push((ks, ValueModel::Text(status_text(status))));
            let m = with_description(
                spec_insert(
                    spec_insert(m0, kh, spec_list_value(vs)),
                    ks,
                    ValueModel::Text(status_text(status)),
                ),
                description,
            );
            match description {
                Some(t) => {
                    lemma_insert_new(m2, kd, ValueModel::Text(t));
                    lemma_model_get_at(m, kd, 2);
                },
                None => {
                    lemma_model_get_none(m, kd);
                },
            }
            lemma_model_get_none(m, kp);
            lemma_model_get_at(m, kh, 0);
            lemma_model_get_at(m, ks, 1);
            assert(occurrences_of(m, kp) == Seq::<ValueModel>::empty());
            assert(spec_read_all::<Propstat>(Seq::<ValueModel>::empty()) == Ok::<
                Seq<PropstatModel>,
                XmlError,
            >(Seq::empty()));
            assert(occurrences_of(m, kh) == vs);
            assert forall|i: int| 0 <= i < vs.len() implies Href::spec_from_value(
                #[trigger] vs[i],
            ) == Ok::<Seq<char>, XmlError>(href[i]) by {
                assert(vs[i] == ValueModel::Text(href[i]));
            }
            lemma_read_all_each::<Href>(vs, href);
        },
    }
}

} // verus!
