//! The pieces that an asynchronous archive is made of, each a step function
//! without any waiting in it.
use vstd::prelude::*;

pub mod buf_reader;
pub mod buf_writer;
pub mod channels;
pub mod combinators;
pub mod crc32;
pub mod entries;
pub mod extraction;
pub mod index;
pub mod keeping;
pub mod os;
pub mod outflow;
pub mod read;
pub mod stream_impls;
pub mod utils;
pub mod write;

verus! {

/// What a step that may have to wait comes to.
#[derive(Debug)]
pub enum Poll<T> {
    /// The value.
    Ready(T),
    /// Nothing yet: the step is to be tried again when something has changed.
    Pending,
}

/// Something that holds a stream and can give it back.
pub trait WrappedPin<S>: Sized {
    /// The stream.
    spec fn wrapped(&self) -> S;

    /// Whether the stream is at hand.
    open spec fn unwrappable(&self) -> bool {
        true
    }

    /// Gives the stream back.
    fn unwrap_inner_pin(self) -> (r: S)
        requires
            self.unwrappable(),
        ensures
            r == self.wrapped(),
    ;
}

} // verus!
