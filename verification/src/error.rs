//! What can go wrong while a model is put together or run.

use vstd::prelude::*;
use vstd::string::*;

use crate::text::{decimal, decimal_text};

verus! {

/// Errors of this crate.
#[derive(Debug)]
pub enum ModelError {
    /// The checkpoint could not be read.
    Format(String),
    /// No registered architecture has this name.
    UnsupportedArchitecture(String),
    /// Images or audio were passed to a model that cannot take them.
    UnsupportedMedia(String),
    /// The model does not offer what was asked for.
    Unsupported(String),
    /// A required weight is missing.
    MissingTensor(String),
    /// A weight has an unexpected shape.
    BadShape {
        /// Name of the weight.
        tensor: String,
        /// Expected shape.
        expected: Vec<usize>,
        /// Shape found.
        got: Vec<usize>,
    },
}

/// Results of this crate.
pub type Result<T> = std::result::Result<T, ModelError>;

/// The numbers of `shape` with a comma and a space between them.
pub open spec fn listed(shape: Seq<usize>) -> Seq<char>
    decreases shape.len(),
{
    if shape.len() == 0 {
        Seq::empty()
    } else if shape.len() == 1 {
        decimal(shape[0] as int)
    } else {
        listed(shape.drop_last()) + ", "@ + decimal(shape.last() as int)
    }
}

/// `error` is a bad shape of `tensor`.
pub open spec fn is_bad_shape(
    error: ModelError,
    tensor: Seq<char>,
    expected: Seq<usize>,
    got: Seq<usize>,
) -> bool {
    error matches ModelError::BadShape { tensor: t, expected: e, got: g } && t@ == tensor && e@
        == expected && g@ == got
}

/// `error` says that `tensor` is missing.
pub open spec fn is_missing(error: ModelError, tensor: Seq<char>) -> bool {
    error matches ModelError::MissingTensor(t) && t@ == tensor
}

/// `error` says that something is not offered.
pub open spec fn is_unsupported(error: ModelError, what: Seq<char>) -> bool {
    error matches ModelError::Unsupported(t) && t@ == what
}

/// `error` says that media cannot be taken.
pub open spec fn is_unsupported_media(error: ModelError, what: Seq<char>) -> bool {
    error matches ModelError::UnsupportedMedia(t) && t@ == what
}

/// `error` says that an architecture is unknown.
pub open spec fn is_unsupported_architecture(error: ModelError, what: Seq<char>) -> bool {
    error matches ModelError::UnsupportedArchitecture(t) && t@ == what
}

/// What an error says.
pub open spec fn error_text(error: ModelError) -> Seq<char> {
    match error {
        ModelError::Format(what) => what@,
        ModelError::UnsupportedArchitecture(what) => "unsupported architecture: "@ + what@,
        ModelError::UnsupportedMedia(what) => "unsupported media input: "@ + what@,
        ModelError::Unsupported(what) => what@,
        ModelError::MissingTensor(what) => "missing weight tensor: "@ + what@,
        ModelError::BadShape { tensor, expected, got } => "bad shape for "@ + tensor@
            + ": expected ["@ + listed(expected@) + "], got ["@ + listed(got@) + "]"@,
    }
}

/// Writes the numbers of a shape behind one another.
pub fn list_text(shape: &Vec<usize>) -> (text: String)
    ensures
        text@ == listed(shape@),
{
    let mut text: String = String::new();
    let mut i: usize = 0;
    assert(shape@.take(0) =~= Seq::empty());
    while i < shape.len()
        invariant
            i <= shape@.len(),
            text@ == listed(shape@.take(i as int)),
        decreases shape@.len() - i,
    {
        let number: String = decimal_text(shape[i]);
        proof {
            let now = shape@.take(i + 1);
            assert(now.drop_last() =~= shape@.take(i as int));
            assert(i == 0 ==> now[0] == shape@[0]);
        }
        if i > 0 {
            text.append(", ");
        }
        text.append(number.as_str());
        proof {
            if i == 0 {
                assert(text@ =~= decimal(shape@[0] as int));
            }
        }
        i = i + 1;
    }
    assert(shape@.take(i as int) =~= shape@);
    text
}

impl ModelError {
    /// What the error says.
    pub fn message(&self) -> (text: String)
        ensures
            text@ == error_text(*self),
            *self matches ModelError::Format(what) ==> text@ == what@,
            *self matches ModelError::Unsupported(what) ==> text@ == what@,
            *self matches ModelError::UnsupportedArchitecture(what) ==> text@
                == "unsupported architecture: "@ + what@,
            *self matches ModelError::UnsupportedMedia(what) ==> text@
                == "unsupported media input: "@ + what@,
            *self matches ModelError::MissingTensor(what) ==> text@ == "missing weight tensor: "@
                + what@,
            *self matches ModelError::BadShape { tensor, expected, got } ==> text@
                == "bad shape for "@ + tensor@ + ": expected ["@ + listed(expected@) + "], got ["@
                + listed(got@) + "]"@,
    {
        match self {
            ModelError::Format(what) => what.clone(),
            ModelError::UnsupportedArchitecture(what) => {
                let mut text: String = "unsupported architecture: ".to_owned();
                text.append(what.as_str());
                text
            },
            ModelError::UnsupportedMedia(what) => {
                let mut text: String = "unsupported media input: ".to_owned();
                text.append(what.as_str());
                text
            },
            ModelError::Unsupported(what) => what.clone(),
            ModelError::MissingTensor(what) => {
                let mut text: String = "missing weight tensor: ".to_owned();
                text.append(what.as_str());
                text
            },
            ModelError::BadShape { tensor, expected, got } => {
                let mut text: String = "bad shape for ".to_owned();
                text.append(tensor.as_str());
                text.append(": expected [");
                let listed: String = list_text(expected);
                text.append(listed.as_str());
                text.append("], got [");
                let listed: String = list_text(got);
                text.append(listed.as_str());
                text.append("]");
                text
            },
        }
    }
}

/// A bad shape of `tensor`.
pub fn bad_shape(tensor: &str, expected: Vec<usize>, got: Vec<usize>) -> (error: ModelError)
    ensures
        is_bad_shape(error, tensor@, expected@, got@),
{
    ModelError::BadShape { tensor: tensor.to_owned(), expected, got }
}

/// A list of one number.
pub fn one(a: usize) -> (list: Vec<usize>)
    ensures
        list@ == seq![a],
{
    let mut list: Vec<usize> = Vec::new();
    list.push(a);
    assert(list@ =~= seq![a]);
    list
}

/// A list of two numbers.
pub fn two(a: usize, b: usize) -> (list: Vec<usize>)
    ensures
        list@ == seq![a, b],
{
    let mut list: Vec<usize> = Vec::new();
    list.push(a);
    list.push(b);
    assert(list@ =~= seq![a, b]);
    list
}

/// A list of numbers is written in decimal notation, in order, with a comma and a
/// space in front of each but the first.
pub proof fn law_lists_are_separated(shape: Seq<usize>, n: usize)
    ensures
        listed(Seq::<usize>::empty()).len() == 0,
        listed(seq![n]) == decimal(n as int),
        shape.len() > 0 ==> listed(shape.push(n)) == listed(shape) + ", "@ + decimal(n as int),
{
    if shape.len() > 0 {
        assert(shape.push(n).drop_last() =~= shape);
    }
}

/// An error says of which tensor, architecture or input it is.
pub proof fn law_errors_name_their_subject(
    error: ModelError,
    what: Seq<char>,
    expected: Seq<usize>,
    got: Seq<usize>,
)
    ensures
        is_missing(error, what) == match error {
            ModelError::MissingTensor(t) => t@ == what,
            _ => false,
        },
        is_unsupported(error, what) == match error {
            ModelError::Unsupported(t) => t@ == what,
            _ => false,
        },
        is_unsupported_media(error, what) == match error {
            ModelError::UnsupportedMedia(t) => t@ == what,
            _ => false,
        },
        is_unsupported_architecture(error, what) == match error {
            ModelError::UnsupportedArchitecture(t) => t@ == what,
            _ => false,
        },
        is_bad_shape(error, what, expected, got) == match error {
            ModelError::BadShape { tensor: t, expected: e, got: g } => t@ == what && e@ == expected
                && g@ == got,
            _ => false,
        },
{
}

} // verus!
