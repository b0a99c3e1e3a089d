use simplex::errors::{
    BranchAndBoundError, MatrixError, MatrixFormError, NormalizeError, ParseError,
};

#[test]
fn parse_errors_name_their_line() {
    let at_line = ParseError::at(3, "relação inválida");
    assert_eq!(at_line.line, Some(3));
    assert_eq!(at_line.message, "relação inválida");
    assert_eq!(at_line.describe(), "erro na linha 3: relação inválida");

    let general = ParseError::general("entrada vazia: objetivo não encontrado");
    assert_eq!(general.line, None);
    assert_eq!(general.describe(), "entrada vazia: objetivo não encontrado");
}

#[test]
fn matrix_errors_describe_themselves() {
    assert_eq!(
        MatrixError::NonRectangular.describe(),
        "matriz inválida: linhas com tamanhos diferentes"
    );
    assert_eq!(MatrixError::NotSquare.describe(), "a matriz precisa ser quadrada");
    assert_eq!(
        MatrixError::IncompatibleDimensions.describe(),
        "as matrizes não possuem dimensões compatíveis"
    );
    assert_eq!(MatrixError::Singular.describe(), "a matriz não possui inversa");
    assert!(!MatrixError::InternalPhaseOneUnbounded.describe().is_empty());
    assert!(!MatrixError::ArtificialRemovalInconsistent.describe().is_empty());
}

#[test]
fn matrix_form_errors_count_rows_from_one() {
    assert_eq!(
        MatrixFormError::NotNormalized.describe(),
        "o problema precisa estar normalizado antes da conversão matricial"
    );
    assert_eq!(
        MatrixFormError::MissingInitialBasis { rows: vec![1, 3] }.describe(),
        "linhas sem variável básica natural: 2, 4"
    );
    assert_eq!(
        MatrixFormError::MissingInitialBasis { rows: vec![0] }.describe(),
        "linhas sem variável básica natural: 1"
    );
    assert_eq!(
        MatrixFormError::UnknownVariable { variable: 7 }.describe(),
        "x_7 não possui tipo registrado"
    );
}

#[test]
fn normalize_error_suggests_a_substitution() {
    assert_eq!(
        NormalizeError::NonPositiveVariable { variable: 2 }.describe(),
        "a normalização atual ainda não suporta variável não positiva isolada: use x_2 = -x'_2, com x'_2 >= 0"
    );
}

#[test]
fn branch_and_bound_errors_wrap_the_stage_that_failed() {
    assert_eq!(
        BranchAndBoundError::DuplicateIntegerVariable { variable: 1 }.describe(),
        "x_1 aparece mais de uma vez na lista de inteiras"
    );
    assert_eq!(
        BranchAndBoundError::InvalidIntegerVariable { variable: 9 }.describe(),
        "x_9 não existe no problema original ou não é uma variável original"
    );
    assert_eq!(
        BranchAndBoundError::Normalize(NormalizeError::NonPositiveVariable { variable: 1 })
            .describe(),
        "erro ao normalizar nó: a normalização atual ainda não suporta variável não positiva isolada: use x_1 = -x'_1, com x'_1 >= 0"
    );
    assert_eq!(
        BranchAndBoundError::MatrixForm(MatrixFormError::NotNormalized).describe(),
        "erro ao converter nó para forma matricial: o problema precisa estar normalizado antes da conversão matricial"
    );
    assert_eq!(
        BranchAndBoundError::Matrix(MatrixError::Singular).describe(),
        "erro matricial ao resolver nó: a matriz não possui inversa"
    );
    assert_eq!(
        BranchAndBoundError::NumericalInconsistency { message: "x".to_string() }.describe(),
        "inconsistência numérica: x"
    );
}
