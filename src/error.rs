//! The closed error taxonomy, with file, parser and position context and an
//! optional inner cause.
use vstd::prelude::*;
use crate::position::{SourcePosition, SourceSpan};
use crate::text::decimal;
use crate::text::decimal_string;

verus! {

#[verifier::external_type_specification]
#[verifier::external_body]
pub struct ExIoError(std::io::Error);

/// Every failure the core reports.
#[allow(inconsistent_fields)]
#[derive(Debug)]
pub enum DokeError {
    /// A metadata block is present but does not parse, or is empty.
    InvalidFrontmatter { message: String, file: String, line: usize },
    /// Body content violates the expected grammar.
    SyntaxError {
        message: String,
        span: SourceSpan,
        file: String,
        parser: String,
        source: Option<Box<DokeError>>,
    },
    /// Parseable but semantically invalid content.
    ValidationError {
        message: String,
        file: String,
        parser: String,
        span: Option<SourceSpan>,
        source: Option<Box<DokeError>>,
    },
    /// A value of the wrong shape.
    TypeMismatch {
        expected: String,
        found: String,
        file: String,
        parser: String,
        span: Option<SourceSpan>,
    },
    /// No parser is registered for a resource type.
    ParserNotFound { parser: String, target_type: String, file: Option<String> },
    /// A read failure surfaced by the caller.
    IoError { source: std::io::Error, file: String },
    /// A file the caller looked for does not exist.
    FileNotFound(String),
    /// Invalid parser configuration.
    ConfigError { message: String, file: String, source: Option<Box<DokeError>> },
    /// A failure while exporting parsed data.
    ExportError { message: String, file: String, source: Option<Box<DokeError>> },
    /// A failure while importing parsed data.
    ImportError { message: String, file: String },
    /// A grammar definition is invalid.
    GrammarError { message: String, source: Option<Box<DokeError>> },
    /// The generic tree could not be converted into domain nodes.
    AstConversionError { message: String, file: String, parser: String, span: Option<SourceSpan> },
    /// A parser does not implement a capability.
    UnsupportedOperation { message: String, parser: String, file: Option<String> },
    /// Any other failure a parser reports.
    ParserFailure {
        message: String,
        parser: String,
        file: String,
        span: Option<SourceSpan>,
        source: Option<Box<DokeError>>,
    },
    /// A broken invariant of the core itself.
    InternalError(String),
    /// A code path that is not written yet.
    NotImplemented(String),
}

/// The result type of the core's fallible operations.
pub type DokeResult<T> = Result<T, DokeError>;

/// The variants that can hold an inner cause.
pub open spec fn has_source_slot(e: DokeError) -> bool {
    match e {
        DokeError::SyntaxError { .. } | DokeError::ValidationError { .. } | DokeError::ConfigError { .. }
        | DokeError::ExportError { .. } | DokeError::GrammarError { .. } | DokeError::ParserFailure { .. } => true,
        _ => false,
    }
}

/// The inner cause of an error, if it holds one.
pub open spec fn cause_of(e: DokeError) -> Option<DokeError> {
    let slot = match e {
        DokeError::SyntaxError { source, .. } => source,
        DokeError::ValidationError { source, .. } => source,
        DokeError::ConfigError { source, .. } => source,
        DokeError::ExportError { source, .. } => source,
        DokeError::GrammarError { source, .. } => source,
        DokeError::ParserFailure { source, .. } => source,
        _ => None,
    };
    match slot {
        Some(b) => Some(*b),
        None => None,
    }
}

/// `a` and `b` are the same error but for their inner causes.
pub open spec fn same_but_cause(a: DokeError, b: DokeError) -> bool {
    match (a, b) {
        (
            DokeError::SyntaxError { message: m1, span: s1, file: f1, parser: pa, .. },
            DokeError::SyntaxError { message: m2, span: s2, file: f2, parser: pb, .. },
        ) => m1 == m2 && s1 == s2 && f1 == f2 && pa == pb,
        (
            DokeError::ValidationError { message: m1, file: f1, parser: pa, span: s1, .. },
            DokeError::ValidationError { message: m2, file: f2, parser: pb, span: s2, .. },
        ) => m1 == m2 && s1 == s2 && f1 == f2 && pa == pb,
        (
            DokeError::ConfigError { message: m1, file: f1, .. },
            DokeError::ConfigError { message: m2, file: f2, .. },
        ) => m1 == m2 && f1 == f2,
        (
            DokeError::ExportError { message: m1, file: f1, .. },
            DokeError::ExportError { message: m2, file: f2, .. },
        ) => m1 == m2 && f1 == f2,
        (DokeError::GrammarError { message: m1, .. }, DokeError::GrammarError { message: m2, .. }) => m1
            == m2,
        (
            DokeError::ParserFailure { message: m1, parser: pa, file: f1, span: s1, .. },
            DokeError::ParserFailure { message: m2, parser: pb, file: f2, span: s2, .. },
        ) => m1 == m2 && s1 == s2 && f1 == f2 && pa == pb,
        _ => false,
    }
}

/// The file an error names, if any.
pub open spec fn file_of(e: DokeError) -> Option<Seq<char>> {
    match e {
        DokeError::InvalidFrontmatter { file, .. } => Some(file@),
        DokeError::SyntaxError { file, .. } => Some(file@),
        DokeError::ValidationError { file, .. } => Some(file@),
        DokeError::TypeMismatch { file, .. } => Some(file@),
        DokeError::ParserNotFound { file, .. } => match file {
            Some(f) => Some(f@),
            None => None,
        },
        DokeError::IoError { file, .. } => Some(file@),
        DokeError::FileNotFound(file) => Some(file@),
        DokeError::ConfigError { file, .. } => Some(file@),
        DokeError::ExportError { file, .. } => Some(file@),
        DokeError::ImportError { file, .. } => Some(file@),
        DokeError::AstConversionError { file, .. } => Some(file@),
        DokeError::UnsupportedOperation { file, .. } => match file {
            Some(f) => Some(f@),
            None => None,
        },
        DokeError::ParserFailure { file, .. } => Some(file@),
        _ => None,
    }
}

impl DokeError {
    /// A syntax error at the point `line`, `col` of `file`.
    pub fn syntax_error(message: &str, line: usize, col: usize, file: &str, parser: &str) -> (r: DokeError)
        ensures
            match r {
                DokeError::SyntaxError { message: m, span, file: f, parser: p, source } => {
                    &&& m@ == message@
                    &&& span.start == span.end
                    &&& span.start.line == line
                    &&& span.start.column == col
                    &&& span.start.byte_offset == 0
                    &&& f@ == file@
                    &&& p@ == parser@
                    &&& source is None
                },
                _ => false,
            },
    {
        let point = SourcePosition { line, column: col, byte_offset: 0 };
        DokeError::SyntaxError {
            message: message.to_owned(),
            span: SourceSpan::single_position(point),
            file: file.to_owned(),
            parser: parser.to_owned(),
            source: None,
        }
    }

    /// A validation error without a span or a cause.
    pub fn validation_error(message: &str, file: &str, parser: &str) -> (r: DokeError)
        ensures
            match r {
                DokeError::ValidationError { message: m, file: f, parser: p, span, source } => {
                    &&& m@ == message@
                    &&& f@ == file@
                    &&& p@ == parser@
                    &&& span is None
                    &&& source is None
                },
                _ => false,
            },
    {
        DokeError::ValidationError {
            message: message.to_owned(),
            file: file.to_owned(),
            parser: parser.to_owned(),
            span: None,
            source: None,
        }
    }

    /// An I/O error for `file`.
    pub fn io_error(source: std::io::Error, file: &str) -> (r: DokeError)
        ensures
            match r {
                DokeError::IoError { file: f, .. } => f@ == file@,
                _ => false,
            },
    {
        DokeError::IoError { source, file: file.to_owned() }
    }

    /// A configuration error without a cause.
    pub fn config_error(message: &str, file: &str) -> (r: DokeError)
        ensures
            match r {
                DokeError::ConfigError { message: m, file: f, source } => {
                    &&& m@ == message@
                    &&& f@ == file@
                    &&& source is None
                },
                _ => false,
            },
    {
        DokeError::ConfigError { message: message.to_owned(), file: file.to_owned(), source: None }
    }

    /// Attaches `source` as the inner cause. Variants without a slot for a
    /// cause are returned unchanged.
    pub fn with_source(self, source: DokeError) -> (r: DokeError)
        ensures
            has_source_slot(self) ==> same_but_cause(r, self) && cause_of(r) == Some(source),
            !has_source_slot(self) ==> r == self,
    {
        match self {
            DokeError::SyntaxError { message, span, file, parser, .. } => DokeError::SyntaxError {
                message,
                span,
                file,
                parser,
                source: Some(Box::new(source)),
            },
            DokeError::ValidationError { message, file, parser, span, .. } => DokeError::ValidationError {
                message,
                file,
                parser,
                span,
                source: Some(Box::new(source)),
            },
            DokeError::ConfigError { message, file, .. } => DokeError::ConfigError {
                message,
                file,
                source: Some(Box::new(source)),
            },
            DokeError::ExportError { message, file, .. } => DokeError::ExportError {
                message,
                file,
                source: Some(Box::new(source)),
            },
            DokeError::GrammarError { message, .. } => DokeError::GrammarError {
                message,
                source: Some(Box::new(source)),
            },
            DokeError::ParserFailure { message, parser, file, span, .. } => DokeError::ParserFailure {
                message,
                parser,
                file,
                span,
                source: Some(Box::new(source)),
            },
            other => other,
        }
    }

    /// The file this error names, if any.
    pub fn file_path(&self) -> (r: Option<&str>)
        ensures
            r is Some <==> file_of(*self) is Some,
            r is Some ==> r->0@ == file_of(*self)->0,
    {
        match self {
            DokeError::InvalidFrontmatter { file, .. } => Some(file.as_str()),
            DokeError::SyntaxError { file, .. } => Some(file.as_str()),
            DokeError::ValidationError { file, .. } => Some(file.as_str()),
            DokeError::TypeMismatch { file, .. } => Some(file.as_str()),
            DokeError::ParserNotFound { file, .. } => match file {
                Some(f) => Some(f.as_str()),
                None => None,
            },
            DokeError::IoError { file, .. } => Some(file.as_str()),
            DokeError::FileNotFound(file) => Some(file.as_str()),
            DokeError::ConfigError { file, .. } => Some(file.as_str()),
            DokeError::ExportError { file, .. } => Some(file.as_str()),
            DokeError::ImportError { file, .. } => Some(file.as_str()),
            DokeError::AstConversionError { file, .. } => Some(file.as_str()),
            DokeError::UnsupportedOperation { file, .. } => match file {
                Some(f) => Some(f.as_str()),
                None => None,
            },
            DokeError::ParserFailure { file, .. } => Some(file.as_str()),
            _ => None,
        }
    }
}

/// ` at line L, column C` for a span's start, or nothing.
pub open spec fn at_text(span: Option<SourceSpan>) -> Seq<char> {
    match span {
        Some(sp) => " at line "@ + decimal(sp.start.line as u64 as nat) + ", column "@ + decimal(
            sp.start.column as u64 as nat,
        ),
        None => seq![],
    }
}

/// ` (parser: name)`.
pub open spec fn parser_text(parser: Seq<char>) -> Seq<char> {
    " (parser: "@ + parser + ")"@
}

/// The printable form of an error: kind, file, position where known,
/// message, and the responsible parser.
pub open spec fn describe_spec(e: DokeError) -> Seq<char> {
    match e {
        DokeError::InvalidFrontmatter { message, file, line } => "Invalid frontmatter in "@ + file@
            + " at line "@ + decimal(line as u64 as nat) + ": "@ + message@,
        DokeError::SyntaxError { message, span, file, parser, .. } => "Syntax error in "@ + file@
            + at_text(Some(span)) + ": "@ + message@ + parser_text(parser@),
        DokeError::ValidationError { message, file, parser, span, .. } => "Validation error in "@
            + file@ + at_text(span) + ": "@ + message@ + parser_text(parser@),
        DokeError::TypeMismatch { expected, found, file, parser, span } => "Type mismatch in "@
            + file@ + at_text(span) + ": expected "@ + expected@ + ", found "@ + found@ + parser_text(
            parser@,
        ),
        DokeError::ParserNotFound { parser, target_type, .. } => "Parser '"@ + parser@
            + "' not found for type: "@ + target_type@,
        DokeError::IoError { file, .. } => "I/O error for file "@ + file@,
        DokeError::FileNotFound(file) => "File not found: "@ + file@,
        DokeError::ConfigError { message, file, .. } => "Configuration error in "@ + file@ + ": "@
            + message@,
        DokeError::ExportError { message, file, .. } => "Export error for "@ + file@ + ": "@
            + message@,
        DokeError::ImportError { message, file } => "Import error for "@ + file@ + ": "@ + message@,
        DokeError::GrammarError { message, .. } => "Grammar error: "@ + message@,
        DokeError::AstConversionError { message, file, parser, span } => "AST conversion error in "@
            + file@ + at_text(span) + ": "@ + message@ + parser_text(parser@),
        DokeError::UnsupportedOperation { message, parser, file } => "Unsupported operation"@
            + match file {
            Some(f) => " in "@ + f@,
            None => seq![],
        } + ": "@ + message@ + parser_text(parser@),
        DokeError::ParserFailure { message, parser, file, span, .. } => "Parser failure in "@
            + file@ + at_text(span) + ": "@ + message@ + parser_text(parser@),
        DokeError::InternalError(message) => "Internal error: "@ + message@,
        DokeError::NotImplemented(message) => "Not implemented: "@ + message@,
    }
}

fn at_string(span: Option<SourceSpan>) -> (r: String)
    ensures
        r@ == at_text(span),
{
    match span {
        Some(sp) => {
            let mut r = " at line ".to_owned();
            r.append(decimal_string(sp.start.line as u64).as_str());
            r.append(", column ");
            r.append(decimal_string(sp.start.column as u64).as_str());
            r
        },
        None => String::new(),
    }
}

fn parser_string(parser: &String) -> (r: String)
    ensures
        r@ == parser_text(parser@),
{
    let mut r = " (parser: ".to_owned();
    r.append(parser.as_str());
    r.append(")");
    r
}

fn join3(a: &str, b: &str, c: &str) -> (r: String)
    ensures
        r@ == a@ + b@ + c@,
{
    let mut r = a.to_owned();
    r.append(b);
    r.append(c);
    r
}

impl DokeError {
    /// The printable form of this error (see `describe_spec`).
    pub fn describe(&self) -> (r: String)
        ensures
            r@ == describe_spec(*self),
    {
        let r = match self {
            DokeError::InvalidFrontmatter { message, file, line } => {
                let mut r = join3("Invalid frontmatter in ", file.as_str(), " at line ");
                r.append(decimal_string(*line as u64).as_str());
                r.append(": ");
                r.append(message.as_str());
                r
            },
            DokeError::SyntaxError { message, span, file, parser, .. } => {
                let mut r = join3("Syntax error in ", file.as_str(), at_string(Some(*span)).as_str());
                r.append(": ");
                r.append(message.as_str());
                r.append(parser_string(parser).as_str());
                r
            },
            DokeError::ValidationError { message, file, parser, span, .. } => {
                let mut r = join3("Validation error in ", file.as_str(), at_string(*span).as_str());
                r.append(": ");
                r.append(message.as_str());
                r.append(parser_string(parser).as_str());
                r
            },
            DokeError::TypeMismatch { expected, found, file, parser, span } => {
                let mut r = join3("Type mismatch in ", file.as_str(), at_string(*span).as_str());
                r.append(": expected ");
                r.append(expected.as_str());
                r.append(", found ");
                r.append(found.as_str());
                r.append(parser_string(parser).as_str());
                r
            },
            DokeError::ParserNotFound { parser, target_type, .. } => {
                let mut r = join3("Parser '", parser.as_str(), "' not found for type: ");
                r.append(target_type.as_str());
                r
            },
            DokeError::IoError { file, .. } => join3("I/O error for file ", file.as_str(), ""),
            DokeError::FileNotFound(file) => join3("File not found: ", file.as_str(), ""),
            DokeError::ConfigError { message, file, .. } => {
                let mut r = join3("Configuration error in ", file.as_str(), ": ");
                r.append(message.as_str());
                r
            },
            DokeError::ExportError { message, file, .. } => {
                let mut r = join3("Export error for ", file.as_str(), ": ");
                r.append(message.as_str());
                r
            },
            DokeError::ImportError { message, file } => {
                let mut r = join3("Import error for ", file.as_str(), ": ");
                r.append(message.as_str());
                r
            },
            DokeError::GrammarError { message, .. } => join3("Grammar error: ", message.as_str(), ""),
            DokeError::AstConversionError { message, file, parser, span } => {
                let mut r = join3("AST conversion error in ", file.as_str(), at_string(*span).as_str());
                r.append(": ");
                r.append(message.as_str());
                r.append(parser_string(parser).as_str());
                r
            },
            DokeError::UnsupportedOperation { message, parser, file } => {
                let mut r = "Unsupported operation".to_owned();
                match file {
                    Some(f) => {
                        r.append(" in ");
                        r.append(f.as_str());
                    },
                    None => {},
                }
                r.append(": ");
                r.append(message.as_str());
                r.append(parser_string(parser).as_str());
                r
            },
            DokeError::ParserFailure { message, parser, file, span, .. } => {
                let mut r = join3("Parser failure in ", file.as_str(), at_string(*span).as_str());
                r.append(": ");
                r.append(message.as_str());
                r.append(parser_string(parser).as_str());
                r
            },
            DokeError::InternalError(message) => join3("Internal error: ", message.as_str(), ""),
            DokeError::NotImplemented(message) => join3("Not implemented: ", message.as_str(), ""),
        };
        proof {
            reveal_strlit("");
        }
        assert(r@ =~= describe_spec(*self));
        r
    }
}

} // verus!
