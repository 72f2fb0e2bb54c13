//! The DLT parser plugins' conversion of a parser outcome into the plugin
//! interface's values: what was consumed, what was yielded, which error.
use vstd::prelude::*;

verus! {

/// An attachment as the DLT parser reports it.
#[derive(Debug)]
pub struct ParserAttachment {
    pub data: Vec<u8>,
    pub name: String,
    pub size: usize,
    pub messages: Vec<usize>,
    pub created_date: Option<String>,
    pub modified_date: Option<String>,
}

/// What the DLT parser yields for one item; a message is held by its text.
#[derive(Debug)]
pub enum ParserYield {
    Message(String),
    Attachment(ParserAttachment),
    MessageAndAttachment((String, ParserAttachment)),
}

/// The DLT parser's errors.
#[derive(Debug)]
pub enum ParserError {
    Parse(String),
    Incomplete,
    Eof,
}

/// A successful parser step: how many bytes of the slice it was given are
/// left over, and what it yielded, if anything.
#[derive(Debug)]
pub struct ParserOutput {
    pub remaining: usize,
    pub value: Option<ParserYield>,
}

/// An attachment as the plugin interface carries it.
#[derive(Debug)]
pub struct Attachment {
    pub data: Vec<u8>,
    pub name: String,
    pub size: u64,
    pub messages: Vec<u64>,
    pub created_date: Option<String>,
    pub modified_date: Option<String>,
}

/// A message as the newer plugin interface carries it.
#[derive(Debug)]
pub enum ParsedMessage {
    Line(String),
    Columns(Vec<String>),
}

/// One yielded item of the plugin interface; `M` is how a message is held.
#[derive(Debug)]
pub enum ParseYield<M> {
    Message(M),
    Attachment(Attachment),
    MessageAndAttachment((M, Attachment)),
}

/// The result of one parse step in the plugin interface.
#[derive(Debug)]
pub struct ParseReturn<M> {
    pub consumed: u64,
    pub value: Option<ParseYield<M>>,
}

/// The plugin interface's parse errors.
#[derive(Debug)]
pub enum ParseError {
    Parse(String),
    Incomplete,
    Eof,
}

/// `att` carries what `raw` does, sizes and message indices widened to `u64`.
pub open spec fn attachment_converted(raw: ParserAttachment, att: Attachment) -> bool {
    &&& att.data == raw.data
    &&& att.name == raw.name
    &&& att.size == raw.size
    &&& att.messages@ == raw.messages@.map_values(|m: usize| m as u64)
    &&& att.created_date == raw.created_date
    &&& att.modified_date == raw.modified_date
}

/// `y` is `raw` in the plugin interface, a message kept as its text.
pub open spec fn yield_converted(raw: ParserYield, y: ParseYield<String>) -> bool {
    match (raw, y) {
        (ParserYield::Message(m), ParseYield::Message(n)) => n == m,
        (ParserYield::Attachment(a), ParseYield::Attachment(b)) => attachment_converted(a, b),
        (ParserYield::MessageAndAttachment((m, a)), ParseYield::MessageAndAttachment((n, b))) => n
            == m && attachment_converted(a, b),
        _ => false,
    }
}

/// The optional yield `y` is the optional `raw` in the plugin interface.
pub open spec fn value_converted(raw: Option<ParserYield>, y: Option<ParseYield<String>>) -> bool {
    match (raw, y) {
        (None, None) => true,
        (Some(r), Some(v)) => yield_converted(r, v),
        _ => false,
    }
}

/// The plugin interface's error for a parser error.
pub open spec fn error_of(e: ParserError) -> ParseError {
    match e {
        ParserError::Parse(msg) => ParseError::Parse(msg),
        ParserError::Incomplete => ParseError::Incomplete,
        ParserError::Eof => ParseError::Eof,
    }
}

/// `r` is what one parse step yields in the plugin interface when the parser,
/// handed a slice of `slice_len` bytes, answered `outcome`: the bytes it
/// consumed and its yield, or its error.
pub open spec fn step_converted(
    slice_len: nat,
    outcome: Result<ParserOutput, ParserError>,
    r: Result<ParseReturn<String>, ParseError>,
) -> bool {
    match outcome {
        Ok(out) => {
            &&& r is Ok
            &&& r->Ok_0.consumed == slice_len - out.remaining
            &&& value_converted(out.value, r->Ok_0.value)
        },
        Err(e) => r == Err::<ParseReturn<String>, ParseError>(error_of(e)),
    }
}

/// A yield with its message turned into a line.
pub open spec fn yield_as_line(y: ParseYield<String>) -> ParseYield<ParsedMessage> {
    match y {
        ParseYield::Message(m) => ParseYield::Message(ParsedMessage::Line(m)),
        ParseYield::Attachment(a) => ParseYield::Attachment(a),
        ParseYield::MessageAndAttachment((m, a)) => ParseYield::MessageAndAttachment(
            (ParsedMessage::Line(m), a),
        ),
    }
}

/// A parse result with its message, if any, turned into a line.
pub open spec fn return_as_line(ret: ParseReturn<String>) -> ParseReturn<ParsedMessage> {
    ParseReturn {
        consumed: ret.consumed,
        value: match ret.value {
            Some(y) => Some(yield_as_line(y)),
            None => None,
        },
    }
}

/// A step's result in the newer plugin interface: its message, if any, as a
/// line; an error as it is.
pub open spec fn result_as_line(s: Result<ParseReturn<String>, ParseError>) -> Result<
    ParseReturn<ParsedMessage>,
    ParseError,
> {
    match s {
        Ok(ret) => Ok(return_as_line(ret)),
        Err(e) => Err(e),
    }
}

/// Two attachments hold the same data, name, size, message indices and dates.
pub open spec fn attachments_agree(a: Attachment, b: Attachment) -> bool {
    &&& a.data == b.data
    &&& a.name == b.name
    &&& a.size == b.size
    &&& a.messages@ == b.messages@
    &&& a.created_date == b.created_date
    &&& a.modified_date == b.modified_date
}

/// Two yields are the same kind of item with the same contents.
pub open spec fn yields_agree(a: ParseYield<String>, b: ParseYield<String>) -> bool {
    match (a, b) {
        (ParseYield::Message(m), ParseYield::Message(n)) => m == n,
        (ParseYield::Attachment(x), ParseYield::Attachment(y)) => attachments_agree(x, y),
        (ParseYield::MessageAndAttachment((m, x)), ParseYield::MessageAndAttachment((n, y))) => m
            == n && attachments_agree(x, y),
        _ => false,
    }
}

/// Two step results are the same: both successes with the same consumed bytes
/// and the same yield, or the same error.
pub open spec fn results_agree(
    a: Result<ParseReturn<String>, ParseError>,
    b: Result<ParseReturn<String>, ParseError>,
) -> bool {
    match (a, b) {
        (Ok(x), Ok(y)) => x.consumed == y.consumed && match (x.value, y.value) {
            (None, None) => true,
            (Some(u), Some(v)) => yields_agree(u, v),
            _ => false,
        },
        (Err(e), Err(f)) => e == f,
        _ => false,
    }
}

/// A step's result is determined by the parser's answer and the slice's
/// length: two results that both convert the same answer agree.
pub proof fn lemma_step_agrees(
    slice_len: nat,
    outcome: Result<ParserOutput, ParserError>,
    a: Result<ParseReturn<String>, ParseError>,
    b: Result<ParseReturn<String>, ParseError>,
)
    requires
        step_converted(slice_len, outcome, a),
        step_converted(slice_len, outcome, b),
    ensures
        results_agree(a, b),
{
    match outcome {
        Ok(out) => {
            let x = a->Ok_0;
            let y = b->Ok_0;
            match out.value {
                Some(raw) => {
                    let u = x.value->Some_0;
                    let v = y.value->Some_0;
                    match raw {
                        ParserYield::Message(m) => {},
                        ParserYield::Attachment(at) => {},
                        ParserYield::MessageAndAttachment((m, at)) => {},
                    }
                },
                None => {},
            }
        },
        Err(e) => {},
    }
}

/// Every field of a converted attachment is the parser attachment's own: the
/// same bytes, name, dates, size and message indices, in the same order.
pub proof fn lemma_attachment_fields_carried(raw: ParserAttachment, att: Attachment)
    requires
        attachment_converted(raw, att),
    ensures
        att.data == raw.data,
        att.name == raw.name,
        att.size as int == raw.size as int,
        att.created_date == raw.created_date,
        att.modified_date == raw.modified_date,
        att.messages@.len() == raw.messages@.len(),
        forall|i: int|
            0 <= i < raw.messages@.len() ==> #[trigger] att.messages@[i] as int
                == raw.messages@[i] as int,
{
}

/// Converting an attachment loses nothing: two parser attachments that
/// convert to the same attachment are the same in every field.
pub proof fn lemma_attachment_conversion_loses_nothing(
    r1: ParserAttachment,
    r2: ParserAttachment,
    att: Attachment,
)
    requires
        attachment_converted(r1, att),
        attachment_converted(r2, att),
    ensures
        r1.data == r2.data,
        r1.name == r2.name,
        r1.size == r2.size,
        r1.messages@ == r2.messages@,
        r1.created_date == r2.created_date,
        r1.modified_date == r2.modified_date,
{
    lemma_attachment_fields_carried(r1, att);
    lemma_attachment_fields_carried(r2, att);
    assert forall|i: int| 0 <= i < r1.messages@.len() implies r1.messages@[i] == r2.messages@[i] by {
        assert(att.messages@[i] as int == r1.messages@[i] as int);
        assert(att.messages@[i] as int == r2.messages@[i] as int);
    }
    assert(r1.messages@ =~= r2.messages@);
}

/// A parser error keeps its kind in the plugin interface, and a parse error
/// keeps its message, whatever the message.
pub proof fn lemma_error_kind_and_message_kept()
    ensures
        forall|msg: String| #[trigger] error_of(ParserError::Parse(msg)) == ParseError::Parse(msg),
        error_of(ParserError::Incomplete) == ParseError::Incomplete,
        error_of(ParserError::Eof) == ParseError::Eof,
{
}

/// Converting an error loses nothing: two parser errors that give the same
/// plugin error are the same error.
pub proof fn lemma_error_conversion_loses_nothing(e1: ParserError, e2: ParserError)
    requires
        error_of(e1) == error_of(e2),
    ensures
        e1 == e2,
{
    lemma_error_kind_and_message_kept();
}

/// A converted yield is the same kind of item as the parser's: a message
/// stays that message, an attachment stays an attachment carrying the
/// parser's, and a message with an attachment keeps both, whatever the
/// message.
pub proof fn lemma_yield_kind_and_contents_kept(raw: ParserYield, y: ParseYield<String>)
    requires
        yield_converted(raw, y),
    ensures
        raw matches ParserYield::Message(m) ==> y == ParseYield::<String>::Message(m),
        raw matches ParserYield::Attachment(a) ==> (y matches ParseYield::Attachment(b)
            && attachment_converted(a, b)),
        raw matches ParserYield::MessageAndAttachment((m, a)) ==> (
        y matches ParseYield::MessageAndAttachment((n, b)) && n == m && attachment_converted(a, b)),
{
}

/// Converting a yield loses nothing: two parser yields that give the same
/// plugin yield are the same kind of item with the same message and the same
/// attachment contents.
pub proof fn lemma_yield_conversion_loses_nothing(
    r1: ParserYield,
    r2: ParserYield,
    y: ParseYield<String>,
)
    requires
        yield_converted(r1, y),
        yield_converted(r2, y),
    ensures
        r1 is Message <==> r2 is Message,
        r1 is Attachment <==> r2 is Attachment,
        r1 is MessageAndAttachment <==> r2 is MessageAndAttachment,
        r1 is Message ==> r1 == r2,
        r1 matches ParserYield::Attachment(a1) ==> (r2 matches ParserYield::Attachment(a2)
            && a1.data == a2.data && a1.name == a2.name && a1.size == a2.size && a1.messages@
            == a2.messages@ && a1.created_date == a2.created_date && a1.modified_date
            == a2.modified_date),
        r1 matches ParserYield::MessageAndAttachment((m1, a1)) ==> (
        r2 matches ParserYield::MessageAndAttachment((m2, a2)) && m1 == m2 && a1.data == a2.data
            && a1.name == a2.name && a1.size == a2.size && a1.messages@ == a2.messages@
            && a1.created_date == a2.created_date && a1.modified_date == a2.modified_date),
{
    match (r1, r2, y) {
        (ParserYield::Attachment(a1), ParserYield::Attachment(a2), ParseYield::Attachment(b)) => {
            lemma_attachment_conversion_loses_nothing(a1, a2, b);
        },
        (
            ParserYield::MessageAndAttachment((m1, a1)),
            ParserYield::MessageAndAttachment((m2, a2)),
            ParseYield::MessageAndAttachment((n, b)),
        ) => {
            lemma_attachment_conversion_loses_nothing(a1, a2, b);
        },
        _ => {},
    }
}

/// A step yields something exactly when the parser yielded something, and
/// then the converted item.
pub proof fn lemma_value_kept(raw: Option<ParserYield>, y: Option<ParseYield<String>>)
    requires
        value_converted(raw, y),
    ensures
        raw is None <==> y is None,
        raw matches Some(r) ==> yield_converted(r, y->Some_0),
{
}

/// A step succeeds exactly when the parser did; it then consumed what the
/// parser did not leave over and yields what the parser yielded, and a failed
/// step carries the parser's error.
pub proof fn lemma_step_kept(
    slice_len: nat,
    outcome: Result<ParserOutput, ParserError>,
    r: Result<ParseReturn<String>, ParseError>,
)
    requires
        step_converted(slice_len, outcome, r),
    ensures
        r is Ok <==> outcome is Ok,
        outcome matches Ok(out) ==> r->Ok_0.consumed + out.remaining == slice_len && (
        out.value is None <==> r->Ok_0.value is None),
        outcome matches Ok(out) ==> value_converted(out.value, r->Ok_0.value),
        outcome matches Err(e) ==> r == Err::<ParseReturn<String>, ParseError>(error_of(e)),
{
}

/// The line form keeps a result whole: the same consumed bytes; nothing
/// exactly when nothing was yielded; an attachment stays that attachment; a
/// message becomes a line with its text, alone or beside its attachment.
pub proof fn lemma_line_form_kept(ret: ParseReturn<String>)
    ensures
        return_as_line(ret).consumed == ret.consumed,
        ret.value is None <==> return_as_line(ret).value is None,
        ret.value matches Some(ParseYield::Message(m)) ==> return_as_line(ret).value == Some(
            ParseYield::Message(ParsedMessage::Line(m)),
        ),
        ret.value matches Some(ParseYield::Attachment(a)) ==> return_as_line(ret).value == Some(
            ParseYield::<ParsedMessage>::Attachment(a),
        ),
        ret.value matches Some(ParseYield::MessageAndAttachment((m, a))) ==> return_as_line(
            ret,
        ).value == Some(ParseYield::MessageAndAttachment((ParsedMessage::Line(m), a))),
{
}

/// The line form loses nothing: two results with the same line form are the
/// same result.
pub proof fn lemma_line_form_loses_nothing(a: ParseReturn<String>, b: ParseReturn<String>)
    requires
        return_as_line(a) == return_as_line(b),
    ensures
        a == b,
{
    lemma_line_form_kept(a);
    lemma_line_form_kept(b);
}

/// In the line form a step's error stays that error and a success becomes
/// its line form.
pub proof fn lemma_line_result_kept(s: Result<ParseReturn<String>, ParseError>)
    ensures
        s matches Err(e) ==> result_as_line(s) == Err::<ParseReturn<ParsedMessage>, ParseError>(e),
        s matches Ok(ret) ==> result_as_line(s) == Ok::<ParseReturn<ParsedMessage>, ParseError>(
            return_as_line(ret),
        ),
{
}

/// Carries a parser attachment over into the plugin interface.
pub fn attachment_from(att: ParserAttachment) -> (r: Attachment)
    ensures
        attachment_converted(att, r),
{
    let ParserAttachment { data, name, size, messages, created_date, modified_date } = att;
    let mut wide: Vec<u64> = Vec::new();
    let mut i: usize = 0;
    while i < messages.len()
        invariant
            i <= messages.len(),
            wide@ =~= messages@.take(i as int).map_values(|m: usize| m as u64),
        decreases messages.len() - i,
    {
        wide.push(messages[i] as u64);
        i = i + 1;
    }
    assert(messages@.take(messages.len() as int) =~= messages@);
    Attachment { data, name, size: size as u64, messages: wide, created_date, modified_date }
}

/// Carries a parser error over into the plugin interface.
pub fn parse_error_from(err: ParserError) -> (r: ParseError)
    ensures
        r == error_of(err),
{
    match err {
        ParserError::Parse(msg) => ParseError::Parse(msg),
        ParserError::Incomplete => ParseError::Incomplete,
        ParserError::Eof => ParseError::Eof,
    }
}

/// Carries a parser yield over into the plugin interface.
fn yield_from(raw: ParserYield) -> (y: ParseYield<String>)
    ensures
        yield_converted(raw, y),
{
    match raw {
        ParserYield::Message(msg) => ParseYield::Message(msg),
        ParserYield::Attachment(att) => ParseYield::Attachment(attachment_from(att)),
        ParserYield::MessageAndAttachment((msg, att)) => ParseYield::MessageAndAttachment(
            (msg, attachment_from(att)),
        ),
    }
}

/// One parse step of the plugin: the parser was handed `data` and answered
/// `outcome`. On success the result says how many bytes of `data` were
/// consumed and what was yielded; a parser error becomes the plugin's error.
pub fn parse_intern(data: &[u8], outcome: Result<ParserOutput, ParserError>) -> (r: Result<
    ParseReturn<String>,
    ParseError,
>)
    requires
        outcome is Ok ==> outcome->Ok_0.remaining <= data.len(),
    ensures
        step_converted(data.len() as nat, outcome, r),
{
    match outcome {
        Ok(out) => {
            let offset = (data.len() - out.remaining) as u64;
            let value = match out.value {
                Some(yld) => Some(yield_from(yld)),
                None => None,
            };
            Ok(ParseReturn { consumed: offset, value })
        },
        Err(err) => Err(parse_error_from(err)),
    }
}

/// A parse result of the newer plugin interface: its message, if any, as a
/// line.
pub fn return_to_line(ret: ParseReturn<String>) -> (r: ParseReturn<ParsedMessage>)
    ensures
        r == return_as_line(ret),
{
    let value = match ret.value {
        Some(ParseYield::Message(m)) => Some(ParseYield::Message(ParsedMessage::Line(m))),
        Some(ParseYield::Attachment(a)) => Some(ParseYield::Attachment(a)),
        Some(ParseYield::MessageAndAttachment((m, a))) => Some(
            ParseYield::MessageAndAttachment((ParsedMessage::Line(m), a)),
        ),
        None => None,
    };
    ParseReturn { consumed: ret.consumed, value }
}

/// One parse step of the plugin built on the newer plugin interface: as
/// `parse_intern`, messages carried as lines.
pub fn parse_intern_official(data: &[u8], outcome: Result<ParserOutput, ParserError>) -> (r:
    Result<ParseReturn<ParsedMessage>, ParseError>)
    requires
        outcome is Ok ==> outcome->Ok_0.remaining <= data.len(),
    ensures
        exists|s: Result<ParseReturn<String>, ParseError>|
            step_converted(data.len() as nat, outcome, s) && r == result_as_line(s),
{
    let s = parse_intern(data, outcome);
    let ghost step = s;
    let r = match s {
        Ok(ret) => Ok(return_to_line(ret)),
        Err(e) => Err(e),
    };
    assert(step_converted(data.len() as nat, outcome, step) && r == result_as_line(step));
    r
}

} // verus!
