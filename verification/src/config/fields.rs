//! Reading typed fields out of the unified configuration.
use vstd::prelude::*;
use vstd::std_specs::convert::FromSpecImpl;
use vstd::string::*;

use crate::json::{views, Json, JsonView};
use crate::seqs::{kept, lemma_kept_step};
use crate::text::{
    decimal, decimal_of, opt_str_view, opt_view, parse_u16, parsed, split, split_char, strings, strs,
    trim, trimmed,
};

verus! {

/// Where in the configuration a field stands.
#[derive(Debug, Clone, Copy)]
pub struct FieldContext<'a> {
    pub section: &'static str,
    pub entry_id: Option<&'a str>,
}

impl<'a> FieldContext<'a> {
    /// A field of a section.
    pub fn section(section: &'static str) -> (r: Self)
        ensures
            r.section@ == section@,
            r.entry_id is None,
    {
        FieldContext { section, entry_id: None }
    }

    /// A field of an entry of a section.
    pub fn entry(section: &'static str, entry_id: &'a str) -> (r: Self)
        ensures
            r.section@ == section@,
            r.entry_id == Some(entry_id),
    {
        FieldContext { section, entry_id: Some(entry_id) }
    }
}

/// A value, or what is wrong with the field that should hold it.
pub type ConfigFieldResult<T> = Result<T, ConfigFieldError>;

/// What is wrong with a field.
#[derive(Debug, PartialEq, Eq)]
pub enum ConfigFieldError {
    InvalidField {
        section: &'static str,
        entry_id: Option<String>,
        field: &'static str,
        expected: &'static str,
        actual: Option<String>,
    },
}

/// What an error says.
#[verifier::ext_equal]
pub struct ErrorView {
    pub section: Seq<char>,
    pub entry_id: Option<Seq<char>>,
    pub field: Seq<char>,
    pub expected: Seq<char>,
    pub actual: Option<Seq<char>>,
}

impl View for ConfigFieldError {
    type V = ErrorView;

    open spec fn view(&self) -> ErrorView {
        match self {
            ConfigFieldError::InvalidField { section, entry_id, field, expected, actual } => ErrorView {
                section: section@,
                entry_id: opt_view(*entry_id),
                field: field@,
                expected: expected@,
                actual: opt_view(*actual),
            },
        }
    }
}

/// The error that a field at some place is not as expected.
pub open spec fn invalid(
    ctx: FieldContext,
    field: Seq<char>,
    expected: Seq<char>,
    actual: Option<Seq<char>>,
) -> ErrorView {
    ErrorView {
        section: ctx.section@,
        entry_id: opt_str_view(ctx.entry_id),
        field,
        expected,
        actual,
    }
}

impl ConfigFieldError {
    /// A field that is missing or of another kind.
    pub fn invalid_field(
        ctx: FieldContext<'_>,
        field: &'static str,
        expected: &'static str,
    ) -> (r: Self)
        ensures
            r@ == invalid(ctx, field@, expected@, None),
    {
        Self::invalid_field_with_actual(ctx, field, expected, None)
    }

    /// A field that holds an unfit value.
    pub fn invalid_field_value(
        ctx: FieldContext<'_>,
        field: &'static str,
        expected: &'static str,
        actual: String,
    ) -> (r: Self)
        ensures
            r@ == invalid(ctx, field@, expected@, Some(actual@)),
    {
        Self::invalid_field_with_actual(ctx, field, expected, Some(actual))
    }

    fn invalid_field_with_actual(
        ctx: FieldContext<'_>,
        field: &'static str,
        expected: &'static str,
        actual: Option<String>,
    ) -> (r: Self)
        ensures
            r@ == invalid(ctx, field@, expected@, opt_view(actual)),
    {
        ConfigFieldError::InvalidField {
            section: ctx.section,
            entry_id: match ctx.entry_id {
                Some(id) => Some(id.to_owned()),
                None => None,
            },
            field,
            expected,
            actual,
        }
    }
}

/// The entries of a section that could be read, and the errors of those that
/// could not.
#[derive(Debug, PartialEq, Eq)]
pub struct ConfigParseReport<T> {
    pub values: Vec<T>,
    pub errors: Vec<ConfigFieldError>,
}

/// What the errors of a report say.
pub open spec fn error_views(errors: Seq<ConfigFieldError>) -> Seq<ErrorView> {
    errors.map_values(|e: ConfigFieldError| e@)
}

impl<T> Default for ConfigParseReport<T> {
    fn default() -> (r: Self)
        ensures
            r.values@ == Seq::<T>::empty(),
            r.errors@ == Seq::<ConfigFieldError>::empty(),
    {
        ConfigParseReport { values: Vec::new(), errors: Vec::new() }
    }
}

impl<T> ConfigParseReport<T> {
    /// What could be read.
    pub fn into_values(self) -> (r: Vec<T>)
        ensures
            r == self.values,
    {
        self.values
    }

    /// Adds the error of an entry.
    pub fn record_error(&mut self, error: ConfigFieldError)
        ensures
            final(self).values == old(self).values,
            final(self).errors@ == old(self).errors@.push(error),
    {
        self.errors.push(error);
    }
}

/// A text of the configuration that is told from others by its type.
pub trait ConfigString: Sized {
    /// The text.
    spec fn text(&self) -> Seq<char>;

    /// The value that holds a text.
    fn from_text(value: String) -> (r: Self)
        ensures
            r.text() == value@,
    ;
}

/// The id of an archive.
#[derive(Debug, PartialEq, Eq, Hash)]
pub struct ArchiveId(pub String);

impl From<String> for ArchiveId {
    fn from(value: String) -> (r: Self) {
        ArchiveId(value)
    }
}

impl FromSpecImpl<String> for ArchiveId {
    open spec fn obeys_from_spec() -> bool {
        true
    }

    open spec fn from_spec(value: String) -> Self {
        ArchiveId(value)
    }
}

impl ConfigString for ArchiveId {
    open spec fn text(&self) -> Seq<char> {
        self.0@
    }

    fn from_text(value: String) -> (r: Self) {
        ArchiveId(value)
    }
}

/// The id of a log source.
#[derive(Debug, PartialEq, Eq, Hash)]
pub struct LogSourceId(pub String);

impl From<String> for LogSourceId {
    fn from(value: String) -> (r: Self) {
        LogSourceId(value)
    }
}

impl FromSpecImpl<String> for LogSourceId {
    open spec fn obeys_from_spec() -> bool {
        true
    }

    open spec fn from_spec(value: String) -> Self {
        LogSourceId(value)
    }
}

impl ConfigString for LogSourceId {
    open spec fn text(&self) -> Seq<char> {
        self.0@
    }

    fn from_text(value: String) -> (r: Self) {
        LogSourceId(value)
    }
}

/// The id of a source of metrics.
#[derive(Debug, PartialEq, Eq, Hash)]
pub struct MetricSourceId(pub String);

impl From<String> for MetricSourceId {
    fn from(value: String) -> (r: Self) {
        MetricSourceId(value)
    }
}

impl FromSpecImpl<String> for MetricSourceId {
    open spec fn obeys_from_spec() -> bool {
        true
    }

    open spec fn from_spec(value: String) -> Self {
        MetricSourceId(value)
    }
}

impl ConfigString for MetricSourceId {
    open spec fn text(&self) -> Seq<char> {
        self.0@
    }

    fn from_text(value: String) -> (r: Self) {
        MetricSourceId(value)
    }
}

/// The id of a repository.
#[derive(Debug, PartialEq, Eq, Hash)]
pub struct RepoId(pub String);

impl From<String> for RepoId {
    fn from(value: String) -> (r: Self) {
        RepoId(value)
    }
}

impl FromSpecImpl<String> for RepoId {
    open spec fn obeys_from_spec() -> bool {
        true
    }

    open spec fn from_spec(value: String) -> Self {
        RepoId(value)
    }
}

impl ConfigString for RepoId {
    open spec fn text(&self) -> Seq<char> {
        self.0@
    }

    fn from_text(value: String) -> (r: Self) {
        RepoId(value)
    }
}

/// The name of a service.
#[derive(Debug, PartialEq, Eq, Hash)]
pub struct ServiceName(pub String);

impl From<String> for ServiceName {
    fn from(value: String) -> (r: Self) {
        ServiceName(value)
    }
}

impl FromSpecImpl<String> for ServiceName {
    open spec fn obeys_from_spec() -> bool {
        true
    }

    open spec fn from_spec(value: String) -> Self {
        ServiceName(value)
    }
}

impl ConfigString for ServiceName {
    open spec fn text(&self) -> Seq<char> {
        self.0@
    }

    fn from_text(value: String) -> (r: Self) {
        ServiceName(value)
    }
}

/// The id of a trace proxy.
#[derive(Debug, PartialEq, Eq, Hash)]
pub struct TraceProxyId(pub String);

impl From<String> for TraceProxyId {
    fn from(value: String) -> (r: Self) {
        TraceProxyId(value)
    }
}

impl FromSpecImpl<String> for TraceProxyId {
    open spec fn obeys_from_spec() -> bool {
        true
    }

    open spec fn from_spec(value: String) -> Self {
        TraceProxyId(value)
    }
}

impl ConfigString for TraceProxyId {
    open spec fn text(&self) -> Seq<char> {
        self.0@
    }

    fn from_text(value: String) -> (r: Self) {
        TraceProxyId(value)
    }
}

/// The address that data is shipped to.
#[derive(Debug, PartialEq, Eq, Hash)]
pub struct WireEndpoint(pub String);

impl From<String> for WireEndpoint {
    fn from(value: String) -> (r: Self) {
        WireEndpoint(value)
    }
}

impl FromSpecImpl<String> for WireEndpoint {
    open spec fn obeys_from_spec() -> bool {
        true
    }

    open spec fn from_spec(value: String) -> Self {
        WireEndpoint(value)
    }
}

impl ConfigString for WireEndpoint {
    open spec fn text(&self) -> Seq<char> {
        self.0@
    }

    fn from_text(value: String) -> (r: Self) {
        WireEndpoint(value)
    }
}

/// A network port.
#[derive(Debug, Clone, Copy, PartialEq, Eq, Hash, Structural)]
pub struct Port(u16);

impl Port {
    /// The number of the port.
    pub closed spec fn number(self) -> u16 {
        self.0
    }

    /// The port of a number, if there is one; a number is never cut down to fit.
    pub fn try_from_u64(raw: u64, field: &'static str, ctx: FieldContext<'_>) -> (r: ConfigFieldResult<
        Self,
    >)
        ensures
            match r {
                Ok(port) => raw <= u16::MAX && port.number() == raw,
                Err(e) => raw > u16::MAX && e@ == invalid(
                    ctx,
                    field@,
                    "u16 port"@,
                    Some(decimal(raw as nat)),
                ),
            },
    {
        if raw <= u16::MAX as u64 {
            Ok(Port(raw as u16))
        } else {
            Err(
                ConfigFieldError::invalid_field_value(ctx, field, "u16 port", decimal_of(raw)),
            )
        }
    }

    pub fn from_u64(raw: u64, field: &'static str, ctx: FieldContext<'_>) -> (r: Option<Self>)
        ensures
            match r {
                Some(port) => raw <= u16::MAX && port.number() == raw,
                None => raw > u16::MAX,
            },
    {
        match Self::try_from_u64(raw, field, ctx) {
            Ok(port) => Some(port),
            Err(_) => None,
        }
    }

    pub fn get(self) -> (r: u16)
        ensures
            r == self.number(),
    {
        self.0
    }
}

/// The text of a field, if it is a text.
pub open spec fn text_field(value: JsonView, field: Seq<char>) -> Option<Seq<char>> {
    match value.get(field) {
        Some(v) => v.as_str(),
        None => None,
    }
}

/// The text of a field, if it is a text and not empty.
pub open spec fn filled_field(value: JsonView, field: Seq<char>) -> Option<Seq<char>> {
    match text_field(value, field) {
        Some(s) => if s.len() > 0 {
            Some(s)
        } else {
            None
        },
        None => None,
    }
}

/// What is wrong where a field is not a filled text.
pub open spec fn not_filled(value: JsonView, field: Seq<char>, ctx: FieldContext) -> ErrorView {
    invalid(ctx, field, "non-empty string"@, text_field(value, field))
}

/// The text of a field that has to be there.
pub fn required_string_field_result(
    value: &Json,
    field: &'static str,
    ctx: FieldContext<'_>,
) -> (r: ConfigFieldResult<String>)
    ensures
        match r {
            Ok(s) => filled_field(value@, field@) == Some(s@),
            Err(e) => filled_field(value@, field@) is None && e@ == not_filled(
                value@,
                field@,
                ctx,
            ),
        },
{
    let raw = match value.get(field) {
        Some(v) => match v.as_str() {
            Some(raw) => raw,
            None => {
                return Err(ConfigFieldError::invalid_field(ctx, field, "non-empty string"));
            },
        },
        None => {
            return Err(ConfigFieldError::invalid_field(ctx, field, "non-empty string"));
        },
    };
    if raw.is_empty() {
        return Err(
            ConfigFieldError::invalid_field_value(ctx, field, "non-empty string", raw.to_owned()),
        );
    }
    Ok(raw.to_owned())
}

/// The text of a field that has to be there, or nothing.
pub fn required_string_field(
    value: &Json,
    field: &'static str,
    ctx: FieldContext<'_>,
) -> (r: Option<String>)
    ensures
        opt_view(r) == filled_field(value@, field@),
{
    match required_string_field_result(value, field, ctx) {
        Ok(s) => Some(s),
        Err(_) => None,
    }
}

/// The typed text of a field that has to be there.
pub fn required_config_string_result<T: ConfigString>(
    value: &Json,
    field: &'static str,
    ctx: FieldContext<'_>,
) -> (r: ConfigFieldResult<T>)
    ensures
        match r {
            Ok(t) => filled_field(value@, field@) == Some(t.text()),
            Err(e) => filled_field(value@, field@) is None && e@ == not_filled(
                value@,
                field@,
                ctx,
            ),
        },
{
    match required_string_field_result(value, field, ctx) {
        Ok(s) => Ok(T::from_text(s)),
        Err(e) => Err(e),
    }
}

/// The typed text of a field that has to be there, or nothing.
pub fn required_config_string<T: ConfigString>(
    value: &Json,
    field: &'static str,
    ctx: FieldContext<'_>,
) -> (r: Option<T>)
    ensures
        match r {
            Some(t) => filled_field(value@, field@) == Some(t.text()),
            None => filled_field(value@, field@) is None,
        },
{
    match required_config_string_result::<T>(value, field, ctx) {
        Ok(t) => Some(t),
        Err(_) => None,
    }
}

/// What is wrong with an empty key.
pub open spec fn empty_key(ctx: FieldContext) -> ErrorView {
    invalid(ctx, "map_key"@, "non-empty string"@, Some(seq![]))
}

/// The typed text of the key of an entry, which must not be empty.
pub fn required_config_key_result<T: ConfigString>(key: &str, ctx: FieldContext<'_>) -> (r:
    ConfigFieldResult<T>)
    ensures
        match r {
            Ok(t) => key@.len() > 0 && t.text() == key@,
            Err(e) => key@.len() == 0 && e@ == empty_key(ctx),
        },
{
    if key.is_empty() {
        assert(key@ =~= seq![]);
        Err(
            ConfigFieldError::invalid_field_value(
                ctx,
                "map_key",
                "non-empty string",
                key.to_owned(),
            ),
        )
    } else {
        Ok(T::from_text(key.to_owned()))
    }
}

/// The typed text of the key of an entry, or nothing where it is empty.
pub fn required_config_key<T: ConfigString>(key: &str, ctx: FieldContext<'_>) -> (r: Option<T>)
    ensures
        match r {
            Some(t) => key@.len() > 0 && t.text() == key@,
            None => key@.len() == 0,
        },
{
    match required_config_key_result::<T>(key, ctx) {
        Ok(t) => Some(t),
        Err(_) => None,
    }
}

/// The text of a field, if it is there and not empty.
pub fn optional_string_field(value: &Json, field: &str) -> (r: Option<String>)
    ensures
        opt_view(r) == filled_field(value@, field@),
{
    match value.get(field) {
        Some(v) => match v.as_str() {
            Some(raw) => if raw.is_empty() {
                None
            } else {
                Some(raw.to_owned())
            },
            None => None,
        },
        None => None,
    }
}

/// A truth value, or the fallback where there is none.
pub open spec fn bool_or(value: JsonView, field: Seq<char>, fallback: bool) -> bool {
    match value.get(field) {
        Some(JsonView::Bool(b)) => b,
        _ => fallback,
    }
}

pub fn bool_field_or(value: &Json, field: &str, fallback: bool) -> (r: bool)
    ensures
        r == bool_or(value@, field@, fallback),
{
    match value.get(field) {
        Some(v) => match v.as_bool() {
            Some(b) => b,
            None => fallback,
        },
        None => fallback,
    }
}

/// A non-negative integer of a field.
pub open spec fn number_field(value: JsonView, field: Seq<char>) -> Option<u64> {
    match value.get(field) {
        Some(v) => v.as_u64(),
        None => None,
    }
}

pub fn u64_field(value: &Json, field: &str) -> (r: Option<u64>)
    ensures
        r == number_field(value@, field@),
{
    match value.get(field) {
        Some(v) => v.as_u64(),
        None => None,
    }
}

/// A positive integer of a field, or the fallback.
pub open spec fn positive_or(value: JsonView, field: Seq<char>, fallback: u64) -> u64 {
    match number_field(value, field) {
        Some(n) => if n > 0 {
            n
        } else {
            fallback
        },
        None => fallback,
    }
}

pub fn positive_u64_field_or(value: &Json, field: &str, fallback: u64) -> (r: u64)
    ensures
        r == positive_or(value@, field@, fallback),
{
    match u64_field(value, field) {
        Some(n) => if n > 0 {
            n
        } else {
            fallback
        },
        None => fallback,
    }
}

/// An integer of a field that fits 32 bits, or the fallback.
pub open spec fn u32_or(value: JsonView, field: Seq<char>, fallback: u32) -> u32 {
    match number_field(value, field) {
        Some(n) => if n <= u32::MAX {
            n as u32
        } else {
            fallback
        },
        None => fallback,
    }
}

pub fn u32_field_or(
    value: &Json,
    field: &'static str,
    fallback: u32,
    _ctx: FieldContext<'_>,
) -> (r: u32)
    ensures
        r == u32_or(value@, field@, fallback),
{
    match u64_field(value, field) {
        Some(n) => if n <= u32::MAX as u64 {
            n as u32
        } else {
            fallback
        },
        None => fallback,
    }
}

/// The texts among the items of an array.
pub open spec fn texts_in(value: JsonView, field: Seq<char>) -> Seq<Seq<char>> {
    match value.get(field) {
        Some(JsonView::Array(items)) => kept(items, |item: JsonView| item.as_str()),
        _ => seq![],
    }
}

/// The texts among the items of an array; anything else in it is passed over.
pub fn string_array_field(value: &Json, field: &str) -> (r: Vec<String>)
    ensures
        strings(r@) == texts_in(value@, field@),
{
    let mut out: Vec<String> = Vec::new();
    assert(strings(out@) =~= seq![]);
    let items = match value.get(field) {
        Some(v) => match v.as_array() {
            Some(items) => items,
            None => {
                return out;
            },
        },
        None => {
            return out;
        },
    };
    let ghost vs = views(items@);
    let ghost f = |item: JsonView| item.as_str();
    let mut i: usize = 0;
    assert(strings(out@) =~= kept(vs.take(0), f));
    while i < items.len()
        invariant
            i <= items@.len(),
            vs == views(items@),
            value@.get(field@) == Some(JsonView::Array(vs)),
            f == (|item: JsonView| item.as_str()),
            strings(out@) == kept(vs.take(i as int), f),
        decreases items.len() - i,
    {
        proof {
            lemma_kept_step(vs, f, i as int);
            assert(vs[i as int] == items@[i as int]@);
        }
        let ghost before = strings(out@);
        if let Some(s) = items[i].as_str() {
            out.push(s.to_owned());
            assert(strings(out@) =~= before.push(s@));
        }
        i = i + 1;
    }
    assert(vs.take(i as int) =~= vs);
    out
}

/// The port that one part of a list in text names.
pub open spec fn port_in_text(part: Seq<char>) -> Option<u16> {
    match parsed(trimmed(part), 10, u16::MAX as nat) {
        Some(n) => Some(n as u16),
        None => None,
    }
}

/// The port that one item of an array is.
pub open spec fn port_in_item(item: JsonView) -> Option<u16> {
    match item.as_u64() {
        Some(n) => if n <= u16::MAX {
            Some(n as u16)
        } else {
            None
        },
        None => None,
    }
}

/// The ports of a list: a text with commas between them, or an array. What is
/// no port is passed over.
pub open spec fn ports_in(value: Option<JsonView>) -> Seq<u16> {
    match value {
        Some(JsonView::Text(raw)) => kept(split(raw, ','), |part: Seq<char>| port_in_text(part)),
        Some(JsonView::Array(items)) => kept(items, |item: JsonView| port_in_item(item)),
        _ => seq![],
    }
}

/// What a borrowed optional document is.
pub open spec fn opt_json_view(value: Option<&Json>) -> Option<JsonView> {
    match value {
        Some(v) => Some(v@),
        None => None,
    }
}

/// The ports of a list: a text with commas between them, or an array.
pub fn port_list_field(value: Option<&Json>, field: &'static str, ctx: FieldContext<'_>) -> (r: Vec<
    u16,
>)
    ensures
        r@ == ports_in(opt_json_view(value)),
{
    let mut out: Vec<u16> = Vec::new();
    let value = match value {
        Some(v) => v,
        None => {
            return out;
        },
    };
    if let Some(raw) = value.as_str() {
        let parts = split_char(raw, ',');
        let ghost rows = strs(parts@);
        let ghost f = |part: Seq<char>| port_in_text(part);
        let mut i: usize = 0;
        assert(out@ =~= kept(rows.take(0), f));
        while i < parts.len()
            invariant
                i <= parts@.len(),
                rows == strs(parts@),
                f == (|part: Seq<char>| port_in_text(part)),
                out@ == kept(rows.take(i as int), f),
            decreases parts.len() - i,
        {
            proof {
                lemma_kept_step(rows, f, i as int);
                assert(rows[i as int] == parts@[i as int]@);
            }
            if let Some(port) = parse_u16(trim(parts[i])) {
                out.push(port);
            }
            i = i + 1;
        }
        assert(rows.take(i as int) =~= rows);
        return out;
    }
    if let Some(items) = value.as_array() {
        let ghost vs = views(items@);
        let ghost f = |item: JsonView| port_in_item(item);
        let mut i: usize = 0;
        assert(out@ =~= kept(vs.take(0), f));
        while i < items.len()
            invariant
                i <= items@.len(),
                vs == views(items@),
                f == (|item: JsonView| port_in_item(item)),
                out@ == kept(vs.take(i as int), f),
            decreases items.len() - i,
        {
            proof {
                lemma_kept_step(vs, f, i as int);
                assert(vs[i as int] == items@[i as int]@);
            }
            if let Some(raw) = items[i].as_u64() {
                if let Some(port) = Port::from_u64(raw, field, ctx) {
                    out.push(port.get());
                }
            }
            i = i + 1;
        }
        assert(vs.take(i as int) =~= vs);
    }
    out
}

/// A blank part of a list in text names no port.
pub proof fn blank_parts_name_no_port(part: Seq<char>)
    requires
        trimmed(part).len() == 0,
    ensures
        port_in_text(part) is None,
{
}

} // verus!
