use vstd::prelude::*;
use crate::text::{begins_with, chars_of, same_text, starts_with_char, string_views};

verus! {

/// One input of `cat`.
#[derive(Debug, Clone, PartialEq, Eq)]
pub enum Input {
    /// The file at this path.
    File(String),
    /// The standard input.
    Stdin,
}

/// An [`Input`] as plain mathematics.
pub enum InputView {
    File(Seq<char>),
    Stdin,
}

impl View for Input {
    type V = InputView;

    open spec fn view(&self) -> InputView {
        match self {
            Input::File(path) => InputView::File(path@),
            Input::Stdin => InputView::Stdin,
        }
    }
}

/// The views of a sequence of inputs, in order.
pub open spec fn input_views(inputs: Seq<Input>) -> Seq<InputView> {
    inputs.map_values(|i: Input| i@)
}

/// The inputs that the arguments `args[i..]` name, in order: `-` is the
/// standard input, every other argument that begins with a dash is an option
/// that `cat` does not have, and the rest are paths. The first such option is
/// the error, and then there are no inputs at all.
pub open spec fn inputs_spec(args: Seq<Seq<char>>, i: int) -> Result<Seq<InputView>, Seq<char>>
    decreases args.len() - i,
{
    if !(0 <= i < args.len()) {
        Ok(Seq::empty())
    } else if begins_with(args[i], '-') && args[i] != "-"@ {
        Err(args[i])
    } else {
        match inputs_spec(args, i + 1) {
            Ok(rest) => Ok(
                seq![
                    if begins_with(args[i], '-') {
                        InputView::Stdin
                    } else {
                        InputView::File(args[i])
                    },
                ] + rest,
            ),
            Err(option) => Err(option),
        }
    }
}

/// `head` put in front of the inputs `rest`, where there are any.
pub open spec fn after_inputs(head: Seq<InputView>, rest: Result<Seq<InputView>, Seq<char>>) -> Result<
    Seq<InputView>,
    Seq<char>,
> {
    match rest {
        Ok(r) => Ok(head + r),
        Err(option) => Err(option),
    }
}

/// The inputs that the arguments of `cat` name, or the first argument that is
/// an option `cat` does not have.
pub fn inputs(args: &Vec<String>) -> (r: Result<Vec<Input>, String>)
    ensures
        match (r, inputs_spec(string_views(args@), 0)) {
            (Ok(found), Ok(expected)) => input_views(found@) == expected,
            (Err(option), Err(expected)) => option@ == expected,
            _ => false,
        },
{
    let ghost words = string_views(args@);
    let mut found: Vec<Input> = Vec::new();
    let mut i: usize = 0;
    assert(after_inputs(input_views(found@), inputs_spec(words, 0)) =~= inputs_spec(words, 0)) by {
        if let Ok(r) = inputs_spec(words, 0) {
            assert(input_views(found@) + r =~= r);
        }
    }
    while i < args.len()
        invariant
            i <= args.len(),
            words == string_views(args@),
            inputs_spec(words, 0) == after_inputs(input_views(found@), inputs_spec(words, i as int)),
        decreases args.len() - i,
    {
        let ghost before = found@;
        let arg = chars_of(args[i].as_str());
        assert(arg@ == words[i as int]);
        let input = if starts_with_char(&arg, '-') {
            if same_text(&arg, "-") {
                Input::Stdin
            } else {
                return Err(args[i].clone());
            }
        } else {
            Input::File(args[i].clone())
        };
        found.push(input);
        proof {
            if let Ok(rest) = inputs_spec(words, i + 1) {
                assert(input_views(found@) + rest =~= input_views(before) + (seq![input@] + rest));
            }
        }
        i = i + 1;
    }
    assert(input_views(found@) + Seq::<InputView>::empty() =~= input_views(found@));
    Ok(found)
}

} // verus!
