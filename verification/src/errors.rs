//! Failures raised while a pipeline is built or while it runs.

use crate::text::decimal;
use crate::text::decimal_text;
use vstd::prelude::*;

verus! {

/// Kind of value that flows through a port.
#[derive(Debug, Clone, Copy, PartialEq, Eq, Structural)]
pub enum ValueType {
    /// Accepts or produces every kind of value.
    Any,
    /// Raw bytes.
    Raw,
    /// Structured data.
    Json,
    /// No value at all.
    Absent,
}

impl ValueType {
    /// Name of the type as it is written in messages.
    pub open spec fn spec_name(self) -> Seq<char> {
        match self {
            ValueType::Any => "any"@,
            ValueType::Raw => "raw"@,
            ValueType::Json => "json"@,
            ValueType::Absent => "none"@,
        }
    }

    /// Name of the type as it is written in messages.
    pub fn name(&self) -> (name: &'static str)
        ensures
            name@ == self.spec_name(),
    {
        match self {
            ValueType::Any => "any",
            ValueType::Raw => "raw",
            ValueType::Json => "json",
            ValueType::Absent => "none",
        }
    }
}

/// Everything that can go wrong in the engine.
#[derive(Debug)]
pub enum ErrorKind {
    /// A failure described only by its message.
    Msg(String),
    /// The edges of the named graph form a cycle.
    CyclicGraphError(String),
    /// The named operator needs a configuration and has none.
    MissingOpConfig(String),
    /// The named operator takes no configuration and was given one.
    ExtraOpConfig(String),
    /// A connection joins ports of different types: where, expected, found.
    TypeError(String, ValueType, ValueType),
    /// No operator of this namespace and name is known.
    UnknownOp(String, String),
    /// A connection refers to a node or port that does not exist.
    MissingSteps(String),
    /// The configuration of an operator could not be understood.
    BadOpConfig(String),
    UnknownNamespace(String),
    UnknownSubPipeline(String),
    UnknownPipeline(String),
    PipelineStartError(String),
    OnrampError(u64),
    OnrampMissingPipeline(String),
    InvalidInfluxData(String),
    InvalidJsonData(String),
    /// An output was referred to by a number that the node does not have.
    BadOutputid(usize),
}

/// Mathematical value of an [`ErrorKind`].
pub ghost enum ErrorView {
    Msg(Seq<char>),
    CyclicGraphError(Seq<char>),
    MissingOpConfig(Seq<char>),
    ExtraOpConfig(Seq<char>),
    TypeError(Seq<char>, ValueType, ValueType),
    UnknownOp(Seq<char>, Seq<char>),
    MissingSteps(Seq<char>),
    BadOpConfig(Seq<char>),
    UnknownNamespace(Seq<char>),
    UnknownSubPipeline(Seq<char>),
    UnknownPipeline(Seq<char>),
    PipelineStartError(Seq<char>),
    OnrampError(u64),
    OnrampMissingPipeline(Seq<char>),
    InvalidInfluxData(Seq<char>),
    InvalidJsonData(Seq<char>),
    BadOutputid(usize),
}

impl View for ErrorKind {
    type V = ErrorView;

    open spec fn view(&self) -> ErrorView {
        match self {
            ErrorKind::Msg(m) => ErrorView::Msg(m@),
            ErrorKind::CyclicGraphError(g) => ErrorView::CyclicGraphError(g@),
            ErrorKind::MissingOpConfig(e) => ErrorView::MissingOpConfig(e@),
            ErrorKind::ExtraOpConfig(e) => ErrorView::ExtraOpConfig(e@),
            ErrorKind::TypeError(l, expected, got) => ErrorView::TypeError(l@, *expected, *got),
            ErrorKind::UnknownOp(n, o) => ErrorView::UnknownOp(n@, o@),
            ErrorKind::MissingSteps(t) => ErrorView::MissingSteps(t@),
            ErrorKind::BadOpConfig(e) => ErrorView::BadOpConfig(e@),
            ErrorKind::UnknownNamespace(n) => ErrorView::UnknownNamespace(n@),
            ErrorKind::UnknownSubPipeline(p) => ErrorView::UnknownSubPipeline(p@),
            ErrorKind::UnknownPipeline(p) => ErrorView::UnknownPipeline(p@),
            ErrorKind::PipelineStartError(p) => ErrorView::PipelineStartError(p@),
            ErrorKind::OnrampError(i) => ErrorView::OnrampError(*i),
            ErrorKind::OnrampMissingPipeline(o) => ErrorView::OnrampMissingPipeline(o@),
            ErrorKind::InvalidInfluxData(s) => ErrorView::InvalidInfluxData(s@),
            ErrorKind::InvalidJsonData(s) => ErrorView::InvalidJsonData(s@),
            ErrorKind::BadOutputid(i) => ErrorView::BadOutputid(*i),
        }
    }
}

/// The mathematical values of a list of errors.
pub open spec fn error_views(errors: Seq<ErrorKind>) -> Seq<ErrorView> {
    Seq::new(errors.len(), |i: int| errors[i]@)
}

impl ErrorView {
    /// Short, fixed description of the kind of failure.
    pub open spec fn description(self) -> Seq<char> {
        match self {
            ErrorView::Msg(m) => m,
            ErrorView::CyclicGraphError(_) => "Cycle detected in graph"@,
            ErrorView::MissingOpConfig(_) => "Operator config is missing"@,
            ErrorView::ExtraOpConfig(_) => "Operator has extra config"@,
            ErrorView::TypeError(_, _, _) => "Type error"@,
            ErrorView::UnknownOp(_, _) => "Unknown operator"@,
            ErrorView::MissingSteps(_) => "missing steps"@,
            ErrorView::BadOpConfig(_) => "Operator config has a bad syntax"@,
            ErrorView::UnknownNamespace(_) => "Unknown namespace"@,
            ErrorView::UnknownSubPipeline(_) => "Reference to unknown sub-pipeline"@,
            ErrorView::UnknownPipeline(_) => "Reference to unknown pipeline"@,
            ErrorView::PipelineStartError(_) => "Failed to start pipeline"@,
            ErrorView::OnrampError(_) => "Error in onramp"@,
            ErrorView::OnrampMissingPipeline(_) => "Onramp is missing a pipeline"@,
            ErrorView::InvalidInfluxData(_) => "Invalid Influx Line Protocol data"@,
            ErrorView::InvalidJsonData(_) => "Invalid JSON"@,
            ErrorView::BadOutputid(_) => "Bad output pipeline id."@,
        }
    }
}

impl ErrorView {
    /// The full message of the failure, with what it is about.
    pub open spec fn message(self) -> Seq<char> {
        match self {
            ErrorView::Msg(m) => m,
            ErrorView::CyclicGraphError(g) => "Cycle detected in graph: "@ + g,
            ErrorView::MissingOpConfig(e) => "Operator config for "@ + e + " is missing"@,
            ErrorView::ExtraOpConfig(e) => "Operator "@ + e
                + " has a config but can't be configured"@,
            ErrorView::TypeError(l, expected, got) => "expected type '"@ + expected.spec_name()
                + "' but found type '"@ + got.spec_name() + "' in "@ + l,
            ErrorView::UnknownOp(n, o) => "Unknown operator: "@ + n + "::"@ + o,
            ErrorView::MissingSteps(t) => "missing steps in: '"@ + t + "'"@,
            ErrorView::BadOpConfig(e) => "Operator config has a bad syntax: "@ + e,
            ErrorView::UnknownNamespace(n) => "Unknown namespace: "@ + n,
            ErrorView::UnknownSubPipeline(p) => "The sub-pipelines '"@ + p + "' is not defined"@,
            ErrorView::UnknownPipeline(p) => "The pipelines '"@ + p + "' is not defined"@,
            ErrorView::PipelineStartError(p) => "Failed to start pipeline '"@ + p + "'"@,
            ErrorView::OnrampError(i) => "Error in onramp '"@ + decimal_text(i as nat) + "'"@,
            ErrorView::OnrampMissingPipeline(o) => "The onramp '"@ + o
                + "' is missing a pipeline"@,
            ErrorView::InvalidInfluxData(s) => "Invalid Influx Line Protocol data: "@ + s,
            ErrorView::InvalidJsonData(s) => "Invalid JSON data: "@ + s,
            ErrorView::BadOutputid(i) => "Bad output pipeline id "@ + decimal_text(i as nat),
        }
    }
}

/// `before`, then `middle`, then `after`.
fn framed_text(before: &str, middle: &str, after: &str) -> (text: String)
    ensures
        text@ == before@ + middle@ + after@,
{
    let mut text = String::from_str(before);
    text.append(middle);
    text.append(after);
    text
}

impl ErrorKind {
    /// The full message of the failure, with what it is about.
    pub fn message(&self) -> (text: String)
        ensures
            text@ == self@.message(),
    {
        proof {
            reveal_strlit("");
        }
        match self {
            ErrorKind::Msg(m) => m.clone(),
            ErrorKind::CyclicGraphError(g) => {
                let text = framed_text("Cycle detected in graph: ", g.as_str(), "");
                assert(text@ =~= self@.message());
                text
            },
            ErrorKind::MissingOpConfig(e) => framed_text(
                "Operator config for ",
                e.as_str(),
                " is missing",
            ),
            ErrorKind::ExtraOpConfig(e) => framed_text(
                "Operator ",
                e.as_str(),
                " has a config but can't be configured",
            ),
            ErrorKind::TypeError(l, expected, got) => {
                let mut text = framed_text(
                    "expected type '",
                    expected.name(),
                    "' but found type '",
                );
                text.append(got.name());
                text.append("' in ");
                text.append(l.as_str());
                text
            },
            ErrorKind::UnknownOp(n, o) => {
                let mut text = framed_text("Unknown operator: ", n.as_str(), "::");
                text.append(o.as_str());
                text
            },
            ErrorKind::MissingSteps(t) => framed_text("missing steps in: '", t.as_str(), "'"),
            ErrorKind::BadOpConfig(e) => {
                let text = framed_text("Operator config has a bad syntax: ", e.as_str(), "");
                assert(text@ =~= self@.message());
                text
            },
            ErrorKind::UnknownNamespace(n) => {
                let text = framed_text("Unknown namespace: ", n.as_str(), "");
                assert(text@ =~= self@.message());
                text
            },
            ErrorKind::UnknownSubPipeline(p) => framed_text(
                "The sub-pipelines '",
                p.as_str(),
                "' is not defined",
            ),
            ErrorKind::UnknownPipeline(p) => framed_text(
                "The pipelines '",
                p.as_str(),
                "' is not defined",
            ),
            ErrorKind::PipelineStartError(p) => framed_text(
                "Failed to start pipeline '",
                p.as_str(),
                "'",
            ),
            ErrorKind::OnrampError(i) => {
                let number = decimal(*i);
                framed_text("Error in onramp '", number.as_str(), "'")
            },
            ErrorKind::OnrampMissingPipeline(o) => framed_text(
                "The onramp '",
                o.as_str(),
                "' is missing a pipeline",
            ),
            ErrorKind::InvalidInfluxData(s) => {
                let text = framed_text("Invalid Influx Line Protocol data: ", s.as_str(), "");
                assert(text@ =~= self@.message());
                text
            },
            ErrorKind::InvalidJsonData(s) => {
                let text = framed_text("Invalid JSON data: ", s.as_str(), "");
                assert(text@ =~= self@.message());
                text
            },
            ErrorKind::BadOutputid(i) => {
                let number = decimal(*i as u64);
                let text = framed_text("Bad output pipeline id ", number.as_str(), "");
                assert(text@ =~= self@.message());
                text
            },
        }
    }

    /// Short description of the kind of failure; for `Msg`, the message itself.
    pub fn description(&self) -> (text: &str)
        ensures
            text@ == self@.description(),
    {
        match self {
            ErrorKind::Msg(m) => m.as_str(),
            ErrorKind::CyclicGraphError(_) => "Cycle detected in graph",
            ErrorKind::MissingOpConfig(_) => "Operator config is missing",
            ErrorKind::ExtraOpConfig(_) => "Operator has extra config",
            ErrorKind::TypeError(_, _, _) => "Type error",
            ErrorKind::UnknownOp(_, _) => "Unknown operator",
            ErrorKind::MissingSteps(_) => "missing steps",
            ErrorKind::BadOpConfig(_) => "Operator config has a bad syntax",
            ErrorKind::UnknownNamespace(_) => "Unknown namespace",
            ErrorKind::UnknownSubPipeline(_) => "Reference to unknown sub-pipeline",
            ErrorKind::UnknownPipeline(_) => "Reference to unknown pipeline",
            ErrorKind::PipelineStartError(_) => "Failed to start pipeline",
            ErrorKind::OnrampError(_) => "Error in onramp",
            ErrorKind::OnrampMissingPipeline(_) => "Onramp is missing a pipeline",
            ErrorKind::InvalidInfluxData(_) => "Invalid Influx Line Protocol data",
            ErrorKind::InvalidJsonData(_) => "Invalid JSON",
            ErrorKind::BadOutputid(_) => "Bad output pipeline id.",
        }
    }
}

} // verus!
