use vstd::prelude::*;

verus! {

/// Outcome of running a parser over a byte slice.
///
/// A parser consumes a prefix of its input and never looks back: `Matched`
/// reports how many bytes of the prefix were used together with the value
/// they denote, `Failed` reports that no prefix of the input can match the
/// grammar rule, and `Incomplete` reports that the input ends before a
/// decision can be made and at least `needed` further bytes are required.
#[derive(Clone, Debug, PartialEq, Eq)]
pub enum Parsed<T> {
    Matched { used: usize, val: T },
    Failed,
    Incomplete { needed: usize },
}

/// Ghost-level image of [`Parsed`], over mathematical integers and the deep
/// views of the carried values. The specification of every parser is a spec
/// function from the input byte sequence to a `SpecParsed` value.
pub enum SpecParsed<V> {
    Matched { used: int, val: V },
    Failed,
    Incomplete { needed: int },
}

impl<T: DeepView> View for Parsed<T> {
    type V = SpecParsed<T::V>;

    open spec fn view(&self) -> SpecParsed<T::V> {
        match self {
            Parsed::Matched { used, val } => SpecParsed::Matched {
                used: *used as int,
                val: val.deep_view(),
            },
            Parsed::Failed => SpecParsed::Failed,
            Parsed::Incomplete { needed } => SpecParsed::Incomplete { needed: *needed as int },
        }
    }
}

} // verus!
