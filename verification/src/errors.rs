//! The errors of each stage of the solver, with the text that describes
//! them to a user.

use vstd::prelude::*;

use crate::text::{decimal, decimal_text, push_decimal};

verus! {

/// An error found while reading a problem, with the line (counted from 1)
/// where it was found when it belongs to one.
#[derive(Clone, Debug, PartialEq, Eq)]
pub struct ParseError {
    pub line: Option<usize>,
    pub message: String,
}

impl ParseError {
    /// An error found on the given line.
    pub fn at(line: usize, message: &str) -> (error: Self)
        ensures
            error.line == Some(line),
            error.message@ == message@,
    {
        ParseError { line: Some(line), message: message.to_owned() }
    }

    /// An error that belongs to no single line.
    pub fn general(message: &str) -> (error: Self)
        ensures
            error.line is None,
            error.message@ == message@,
    {
        ParseError { line: None, message: message.to_owned() }
    }

    /// The text shown to the user: the message, after the line where there
    /// is one.
    pub fn describe(&self) -> (text: String)
        ensures
            text@ == parse_error_text(self.line, self.message@),
    {
        match self.line {
            Some(line) => {
                let mut text = String::from_str("erro na linha ");
                push_decimal(&mut text, line as u128);
                text.append(": ");
                text.append(self.message.as_str());
                text
            },
            None => String::from_str(self.message.as_str()),
        }
    }
}

/// The text of a reading error.
pub open spec fn parse_error_text(line: Option<usize>, message: Seq<char>) -> Seq<char> {
    match line {
        Some(line) => "erro na linha "@ + decimal_text(line as nat) + ": "@ + message,
        None => message,
    }
}

/// Why a linear algebra operation failed.
#[derive(Clone, Copy, Debug, PartialEq, Eq, Structural)]
pub enum MatrixError {
    NonRectangular,
    NotSquare,
    IncompatibleDimensions,
    Singular,
    InternalPhaseOneUnbounded,
    ArtificialRemovalInconsistent,
}

/// The text of a linear algebra error.
pub open spec fn matrix_error_text(error: MatrixError) -> Seq<char> {
    match error {
        MatrixError::NonRectangular => "matriz inválida: linhas com tamanhos diferentes"@,
        MatrixError::NotSquare => "a matriz precisa ser quadrada"@,
        MatrixError::IncompatibleDimensions => "as matrizes não possuem dimensões compatíveis"@,
        MatrixError::Singular => "a matriz não possui inversa"@,
        MatrixError::InternalPhaseOneUnbounded => "a Fase I não pode ser ilimitada"@,
        MatrixError::ArtificialRemovalInconsistent =>
            "as variáveis artificiais não puderam ser removidas após a Fase I"@,
    }
}

impl MatrixError {
    /// The text shown to the user.
    pub fn describe(&self) -> (text: String)
        ensures
            text@ == matrix_error_text(*self),
    {
        String::from_str(
            match self {
                MatrixError::NonRectangular => "matriz inválida: linhas com tamanhos diferentes",
                MatrixError::NotSquare => "a matriz precisa ser quadrada",
                MatrixError::IncompatibleDimensions =>
                    "as matrizes não possuem dimensões compatíveis",
                MatrixError::Singular => "a matriz não possui inversa",
                MatrixError::InternalPhaseOneUnbounded => "a Fase I não pode ser ilimitada",
                MatrixError::ArtificialRemovalInconsistent =>
                    "as variáveis artificiais não puderam ser removidas após a Fase I",
            },
        )
    }
}

/// Why a normalized problem could not be brought into matrix form.
#[derive(Clone, Debug, PartialEq, Eq)]
pub enum MatrixFormError {
    NotNormalized,
    MissingInitialBasis { rows: Vec<usize> },
    UnknownVariable { variable: usize },
}

/// Row indices shown counted from 1 and separated by commas.
pub open spec fn row_list_text(rows: Seq<usize>) -> Seq<char>
    decreases rows.len(),
{
    if rows.len() == 0 {
        Seq::empty()
    } else if rows.len() == 1 {
        decimal_text((rows[0] + 1) as nat)
    } else {
        row_list_text(rows.drop_last()) + ", "@ + decimal_text((rows.last() + 1) as nat)
    }
}

/// The text of a matrix form error.
pub open spec fn matrix_form_error_text(error: MatrixFormError) -> Seq<char> {
    match error {
        MatrixFormError::NotNormalized =>
            "o problema precisa estar normalizado antes da conversão matricial"@,
        MatrixFormError::MissingInitialBasis { rows } => "linhas sem variável básica natural: "@
            + row_list_text(rows@),
        MatrixFormError::UnknownVariable { variable } => "x_"@ + decimal_text(variable as nat)
            + " não possui tipo registrado"@,
    }
}

impl MatrixFormError {
    /// The text shown to the user.
    pub fn describe(&self) -> (text: String)
        ensures
            text@ == matrix_form_error_text(*self),
    {
        match self {
            MatrixFormError::NotNormalized => String::from_str(
                "o problema precisa estar normalizado antes da conversão matricial",
            ),
            MatrixFormError::MissingInitialBasis { rows } => {
                let mut text = String::from_str("linhas sem variável básica natural: ");
                let ghost prefix = text@;
                let mut index: usize = 0;
                while index < rows.len()
                    invariant
                        index <= rows@.len(),
                        text@ == prefix + row_list_text(rows@.take(index as int)),
                    decreases rows.len() - index,
                {
                    assert(rows@.take(index + 1).drop_last() =~= rows@.take(index as int));
                    if index > 0 {
                        text.append(", ");
                    }
                    push_decimal(&mut text, rows[index] as u128 + 1);
                    index = index + 1;
                    assert(text@ =~= prefix + row_list_text(rows@.take(index as int)));
                }
                assert(rows@.take(index as int) =~= rows@);
                text
            },
            MatrixFormError::UnknownVariable { variable } => {
                let mut text = String::from_str("x_");
                push_decimal(&mut text, *variable as u128);
                text.append(" não possui tipo registrado");
                text
            },
        }
    }
}

/// Why a problem could not be normalized.
#[derive(Clone, Copy, Debug, PartialEq, Eq, Structural)]
pub enum NormalizeError {
    NonPositiveVariable { variable: usize },
}

/// The text of a normalization error.
pub open spec fn normalize_error_text(error: NormalizeError) -> Seq<char> {
    match error {
        NormalizeError::NonPositiveVariable { variable } => {
            let index = decimal_text(variable as nat);
            "a normalização atual ainda não suporta variável não positiva isolada: use x_"@ + index
                + " = -x'_"@ + index + ", com x'_"@ + index + " >= 0"@
        },
    }
}

impl NormalizeError {
    /// The text shown to the user.
    pub fn describe(&self) -> (text: String)
        ensures
            text@ == normalize_error_text(*self),
    {
        match self {
            NormalizeError::NonPositiveVariable { variable } => {
                let index = decimal(*variable as u128);
                let mut text = String::from_str(
                    "a normalização atual ainda não suporta variável não positiva isolada: use x_",
                );
                text.append(index.as_str());
                text.append(" = -x'_");
                text.append(index.as_str());
                text.append(", com x'_");
                text.append(index.as_str());
                text.append(" >= 0");
                text
            },
        }
    }
}

/// Why branch and bound could not run to the end.
#[derive(Debug)]
pub enum BranchAndBoundError {
    DuplicateIntegerVariable { variable: usize },
    InvalidIntegerVariable { variable: usize },
    Normalize(NormalizeError),
    MatrixForm(MatrixFormError),
    Matrix(MatrixError),
    NumericalInconsistency { message: String },
}

/// The text of a branch and bound error.
pub open spec fn branch_and_bound_error_text(error: BranchAndBoundError) -> Seq<char> {
    match error {
        BranchAndBoundError::DuplicateIntegerVariable { variable } => "x_"@ + decimal_text(
            variable as nat,
        ) + " aparece mais de uma vez na lista de inteiras"@,
        BranchAndBoundError::InvalidIntegerVariable { variable } => "x_"@ + decimal_text(
            variable as nat,
        ) + " não existe no problema original ou não é uma variável original"@,
        BranchAndBoundError::Normalize(inner) => "erro ao normalizar nó: "@ + normalize_error_text(
            inner,
        ),
        BranchAndBoundError::MatrixForm(inner) => "erro ao converter nó para forma matricial: "@
            + matrix_form_error_text(inner),
        BranchAndBoundError::Matrix(inner) => "erro matricial ao resolver nó: "@
            + matrix_error_text(inner),
        BranchAndBoundError::NumericalInconsistency { message } => "inconsistência numérica: "@
            + message@,
    }
}

impl BranchAndBoundError {
    /// The text shown to the user.
    pub fn describe(&self) -> (text: String)
        ensures
            text@ == branch_and_bound_error_text(*self),
    {
        match self {
            BranchAndBoundError::DuplicateIntegerVariable { variable } => {
                let mut text = String::from_str("x_");
                push_decimal(&mut text, *variable as u128);
                text.append(" aparece mais de uma vez na lista de inteiras");
                text
            },
            BranchAndBoundError::InvalidIntegerVariable { variable } => {
                let mut text = String::from_str("x_");
                push_decimal(&mut text, *variable as u128);
                text.append(" não existe no problema original ou não é uma variável original");
                text
            },
            BranchAndBoundError::Normalize(inner) => {
                let inner_text = inner.describe();
                let mut text = String::from_str("erro ao normalizar nó: ");
                text.append(inner_text.as_str());
                text
            },
            BranchAndBoundError::MatrixForm(inner) => {
                let inner_text = inner.describe();
                let mut text = String::from_str("erro ao converter nó para forma matricial: ");
                text.append(inner_text.as_str());
                text
            },
            BranchAndBoundError::Matrix(inner) => {
                let inner_text = inner.describe();
                let mut text = String::from_str("erro matricial ao resolver nó: ");
                text.append(inner_text.as_str());
                text
            },
            BranchAndBoundError::NumericalInconsistency { message } => {
                let mut text = String::from_str("inconsistência numérica: ");
                text.append(message.as_str());
                text
            },
        }
    }
}


/// The error type of the standard library's input and output, carried
/// through unchanged.
#[verifier::external_type_specification]
#[verifier::external_body]
pub struct ExIoError(std::io::Error);

/// Why a problem could not be read from or written to a file.
#[derive(Debug)]
pub enum AppError {
    Io(std::io::Error),
    Parse(ParseError),
}

/// The text of a reading error of a problem file; that of an input or
/// output error is left to the standard library.
pub open spec fn parse_failure_text(error: AppError) -> Seq<char>
    recommends
        error is Parse,
{
    match error {
        AppError::Parse(inner) => parse_error_text(inner.line, inner.message@),
        AppError::Io(_) => Seq::empty(),
    }
}

impl AppError {
    /// The text shown to the user for a reading error, `None` for an input
    /// or output error, whose text comes from the standard library.
    pub fn parse_description(&self) -> (text: Option<String>)
        ensures
            self is Parse <==> text is Some,
            text matches Some(text) ==> text@ == parse_failure_text(*self),
    {
        match self {
            AppError::Io(_) => None,
            AppError::Parse(error) => Some(error.describe()),
        }
    }
}


impl From<NormalizeError> for BranchAndBoundError {
    fn from(error: NormalizeError) -> (wrapped: Self) {
        BranchAndBoundError::Normalize(error)
    }
}

impl vstd::std_specs::convert::FromSpecImpl<NormalizeError> for BranchAndBoundError {
    open spec fn obeys_from_spec() -> bool {
        true
    }

    open spec fn from_spec(error: NormalizeError) -> Self {
        BranchAndBoundError::Normalize(error)
    }
}

impl From<MatrixFormError> for BranchAndBoundError {
    fn from(error: MatrixFormError) -> (wrapped: Self) {
        BranchAndBoundError::MatrixForm(error)
    }
}

impl vstd::std_specs::convert::FromSpecImpl<MatrixFormError> for BranchAndBoundError {
    open spec fn obeys_from_spec() -> bool {
        true
    }

    open spec fn from_spec(error: MatrixFormError) -> Self {
        BranchAndBoundError::MatrixForm(error)
    }
}

impl From<MatrixError> for BranchAndBoundError {
    fn from(error: MatrixError) -> (wrapped: Self) {
        BranchAndBoundError::Matrix(error)
    }
}

impl vstd::std_specs::convert::FromSpecImpl<MatrixError> for BranchAndBoundError {
    open spec fn obeys_from_spec() -> bool {
        true
    }

    open spec fn from_spec(error: MatrixError) -> Self {
        BranchAndBoundError::Matrix(error)
    }
}

impl From<std::io::Error> for AppError {
    fn from(error: std::io::Error) -> (wrapped: Self) {
        AppError::Io(error)
    }
}

impl vstd::std_specs::convert::FromSpecImpl<std::io::Error> for AppError {
    open spec fn obeys_from_spec() -> bool {
        true
    }

    open spec fn from_spec(error: std::io::Error) -> Self {
        AppError::Io(error)
    }
}

impl From<ParseError> for AppError {
    fn from(error: ParseError) -> (wrapped: Self) {
        AppError::Parse(error)
    }
}

impl vstd::std_specs::convert::FromSpecImpl<ParseError> for AppError {
    open spec fn obeys_from_spec() -> bool {
        true
    }

    open spec fn from_spec(error: ParseError) -> Self {
        AppError::Parse(error)
    }
}

} // verus!
