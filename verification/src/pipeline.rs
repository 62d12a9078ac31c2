//! The whole way from the text of a description to the text of the generated
//! module.

use vstd::prelude::*;
use crate::assembler::app_text;
use crate::mapper::CodeGenerator;
use crate::model::{OpenApiError, OpenApiErrorView, OpenApiSpec, OpenApiSpecView};
use crate::reading::{document_of_reading, json_reading, yaml_reading};
use crate::types::{GenerateError, GenerateErrorView};
use crate::views::result_view;

verus! {

/// The syntax in which a description is written.
#[derive(Debug, Clone, Copy, PartialEq, Eq)]
pub enum Syntax {
    Json,
    Yaml,
}

/// Why no module was generated from a text.
#[derive(Debug, Clone, PartialEq, Eq)]
pub enum PipelineError {
    /// The text could not be read as a description.
    Read(OpenApiError),
    /// The description could not be lowered.
    Lower(GenerateError),
}

/// A `PipelineError` as a mathematical value.
pub enum PipelineErrorView {
    Read(OpenApiErrorView),
    Lower(GenerateErrorView),
}

impl DeepView for PipelineError {
    type V = PipelineErrorView;

    open spec fn deep_view(&self) -> PipelineErrorView {
        match self {
            PipelineError::Read(e) => PipelineErrorView::Read(e@),
            PipelineError::Lower(e) => PipelineErrorView::Lower(e@),
        }
    }
}

impl View for PipelineError {
    type V = PipelineErrorView;

    open spec fn view(&self) -> PipelineErrorView {
        self.deep_view()
    }
}

/// The description that a text in the given syntax holds.
pub open spec fn document_of_text(text: Seq<char>, syntax: Syntax) -> Result<
    OpenApiSpecView,
    OpenApiErrorView,
> {
    match syntax {
        Syntax::Json => document_of_reading(json_reading(text)),
        Syntax::Yaml => document_of_reading(yaml_reading(text)),
    }
}

/// The module that is generated from a text in the given syntax.
pub open spec fn module_of_text(text: Seq<char>, syntax: Syntax) -> Result<
    Seq<char>,
    PipelineErrorView,
> {
    match document_of_text(text, syntax) {
        Ok(spec) => match app_text(spec) {
            Ok(module) => Ok(module),
            Err(e) => Err(PipelineErrorView::Lower(e)),
        },
        Err(e) => Err(PipelineErrorView::Read(e)),
    }
}

impl OpenApiSpec {
    /// The description that a text in the given syntax holds.
    pub fn parse(content: &str, syntax: Syntax) -> (r: Result<OpenApiSpec, OpenApiError>)
        ensures
            result_view(r) == document_of_text(content@, syntax),
            r matches Ok(spec) ==> spec@.well_formed(),
    {
        match syntax {
            Syntax::Json => OpenApiSpec::from_json(content),
            Syntax::Yaml => OpenApiSpec::from_yaml(content),
        }
    }
}

/// The source text of the server skeleton for the description that `content`
/// holds. Any failure leaves nothing generated.
pub fn generate(content: &str, syntax: Syntax) -> (r: Result<String, PipelineError>)
    ensures
        result_view(r) == module_of_text(content@, syntax),
{
    match OpenApiSpec::parse(content, syntax) {
        Ok(spec) => match CodeGenerator::generate_axum_app(&spec) {
            Ok(module) => Ok(module),
            Err(e) => Err(PipelineError::Lower(e)),
        },
        Err(e) => Err(PipelineError::Read(e)),
    }
}

} // verus!
