use vstd::prelude::*;
use vstd::string::{to_string_from_display_ensures, StringExecFns};

verus! {

#[verifier::external_type_specification]
#[verifier::external_body]
pub struct ExIoError(std::io::Error);

#[verifier::external_type_specification]
#[verifier::external_body]
pub struct ExXmlError(quick_xml::Error);

#[verifier::external_type_specification]
#[verifier::external_body]
pub struct ExCsvError(csv::Error);

#[verifier::external_type_specification]
#[verifier::external_body]
pub struct ExAttrError(quick_xml::events::attributes::AttrError);

/// The errors that parsing and deduplication can report.
#[derive(Debug)]
pub enum CitationError {
    Io(std::io::Error),
    InvalidFormat(String),
    MissingField(String),
    InvalidFieldValue { field: String, message: String },
    MalformedInput { message: String, line: usize },
    Other(String),
}

/// A library-wide result whose error is a `CitationError`.
pub type Result<T> = std::result::Result<T, CitationError>;

/// The decimal digits of `n`, most significant first, without leading zeros.
pub open spec fn decimal(n: nat) -> Seq<char>
    decreases n,
{
    if n < 10 {
        seq![digit_char(n)]
    } else {
        decimal(n / 10).push(digit_char(n % 10))
    }
}

/// The character of a decimal digit.
pub open spec fn digit_char(d: nat) -> char {
    if d == 0 { '0' } else if d == 1 { '1' } else if d == 2 { '2' } else if d == 3 { '3' }
    else if d == 4 { '4' } else if d == 5 { '5' } else if d == 6 { '6' } else if d == 7 { '7' }
    else if d == 8 { '8' } else { '9' }
}

/// The message of an error other than `Io`, as `to_string` renders it.
pub open spec fn message_of(e: CitationError) -> Seq<char> {
    match e {
        CitationError::Io(_) => "IO error: "@,
        CitationError::InvalidFormat(m) => "Parse error: "@ + m@,
        CitationError::MissingField(m) => "Missing required field: "@ + m@,
        CitationError::InvalidFieldValue { field, message } =>
            "Invalid field value: "@ + field@ + " - "@ + message@,
        CitationError::MalformedInput { message, line } =>
            "Malformed input: "@ + message@ + " at line "@ + decimal(line as nat),
        CitationError::Other(m) => "Error: "@ + m@,
    }
}

fn digit_str(d: usize) -> (r: &'static str)
    requires
        d < 10,
    ensures
        r@ == seq![digit_char(d as nat)],
{
    proof {
        reveal_strlit("0");
        reveal_strlit("1");
        reveal_strlit("2");
        reveal_strlit("3");
        reveal_strlit("4");
        reveal_strlit("5");
        reveal_strlit("6");
        reveal_strlit("7");
        reveal_strlit("8");
        reveal_strlit("9");
    }
    if d == 0 { "0" } else if d == 1 { "1" } else if d == 2 { "2" } else if d == 3 { "3" }
    else if d == 4 { "4" } else if d == 5 { "5" } else if d == 6 { "6" } else if d == 7 { "7" }
    else if d == 8 { "8" } else { "9" }
}

/// Appends the decimal digits of `n` to `out`.
fn push_decimal(out: &mut String, n: usize)
    ensures
        final(out)@ == old(out)@ + decimal(n as nat),
    decreases n,
{
    if n < 10 {
        out.append(digit_str(n));
    } else {
        push_decimal(out, n / 10);
        out.append(digit_str(n % 10));
        proof {
            assert(final(out)@ =~= old(out)@ + decimal(n as nat));
        }
    }
}

impl CitationError {
    /// The human-readable message of this error.
    pub fn to_string(&self) -> (r: String)
        ensures
            !(self is Io) ==> r@ == message_of(*self),
            self matches CitationError::Io(e) ==> exists|t: String|
                to_string_from_display_ensures::<std::io::Error>(&e, t) && r@ == message_of(*self)
                    + t@,
    {
        let mut out = String::new();
        match self {
            CitationError::Io(e) => {
                out.append("IO error: ");
                let t = e.to_string();
                out.append(t.as_str());
            },
            CitationError::InvalidFormat(m) => {
                out.append("Parse error: ");
                out.append(m.as_str());
            },
            CitationError::MissingField(m) => {
                out.append("Missing required field: ");
                out.append(m.as_str());
            },
            CitationError::InvalidFieldValue { field, message } => {
                out.append("Invalid field value: ");
                out.append(field.as_str());
                out.append(" - ");
                out.append(message.as_str());
            },
            CitationError::MalformedInput { message, line } => {
                out.append("Malformed input: ");
                out.append(message.as_str());
                out.append(" at line ");
                push_decimal(&mut out, *line);
            },
            CitationError::Other(m) => {
                out.append("Error: ");
                out.append(m.as_str());
            },
        }
        out
    }
}

impl From<std::io::Error> for CitationError {
    fn from(err: std::io::Error) -> (r: CitationError) {
        CitationError::Io(err)
    }
}

impl vstd::std_specs::convert::FromSpecImpl<std::io::Error> for CitationError {
    open spec fn obeys_from_spec() -> bool {
        true
    }

    open spec fn from_spec(v: std::io::Error) -> CitationError {
        CitationError::Io(v)
    }
}

impl From<quick_xml::Error> for CitationError {
    /// The error's own message, as a format error.
    fn from(err: quick_xml::Error) -> (r: CitationError)
        ensures
            r matches CitationError::InvalidFormat(m) && to_string_from_display_ensures::<
                quick_xml::Error,
            >(&err, m),
    {
        CitationError::InvalidFormat(err.to_string())
    }
}

impl vstd::std_specs::convert::FromSpecImpl<quick_xml::Error> for CitationError {
    open spec fn obeys_from_spec() -> bool {
        false
    }

    open spec fn from_spec(v: quick_xml::Error) -> CitationError {
        arbitrary()
    }
}

impl From<quick_xml::events::attributes::AttrError> for CitationError {
    /// The error's own message, as a format error.
    fn from(err: quick_xml::events::attributes::AttrError) -> (r: CitationError)
        ensures
            r matches CitationError::InvalidFormat(m) && to_string_from_display_ensures::<
                quick_xml::events::attributes::AttrError,
            >(&err, m),
    {
        CitationError::InvalidFormat(err.to_string())
    }
}

impl vstd::std_specs::convert::FromSpecImpl<quick_xml::events::attributes::AttrError> for CitationError {
    open spec fn obeys_from_spec() -> bool {
        false
    }

    open spec fn from_spec(v: quick_xml::events::attributes::AttrError) -> CitationError {
        arbitrary()
    }
}

impl From<csv::Error> for CitationError {
    /// The error's own message, as a format error.
    fn from(err: csv::Error) -> (r: CitationError)
        ensures
            r matches CitationError::InvalidFormat(m) && to_string_from_display_ensures::<
                csv::Error,
            >(&err, m),
    {
        CitationError::InvalidFormat(err.to_string())
    }
}

impl vstd::std_specs::convert::FromSpecImpl<csv::Error> for CitationError {
    open spec fn obeys_from_spec() -> bool {
        false
    }

    open spec fn from_spec(v: csv::Error) -> CitationError {
        arbitrary()
    }
}

} // verus!
