//! The machine's boundary capabilities: producers that feed input channels
//! and consumers that drain output channels. The engine depends only on
//! these two interfaces; in-memory containers implement them here, and an
//! embedding application may supply its own (queues across threads, character
//! streams, and so on).
use std::collections::VecDeque;
use vstd::prelude::*;
use vstd::string::*;

verus! {

/// A producer of values. While a source has values, take returns Some;
/// once it is permanently out of them it returns None, telling the caller
/// to move on. No contract constrains implementors beyond the signature:
/// the machine states what holds of a step whatever a source hands back.
pub trait Source<T> {
    fn take(&mut self) -> Option<T>;
}

impl<T> Source<T> for Vec<T> {
    fn take(&mut self) -> Option<T> {
        if self.len() == 0 {
            None
        } else {
            Some(self.remove(0))
        }
    }
}

impl<T> Source<T> for VecDeque<T> {
    fn take(&mut self) -> Option<T> {
        self.pop_front()
    }
}

impl Source<char> for String {
    fn take(&mut self) -> Option<char> {
        let n = self.as_str().unicode_len();
        if n == 0 {
            None
        } else {
            let c = self.as_str().get_char(0);
            let rest = self.as_str().substring_char(1, n).to_owned();
            *self = rest;
            Some(c)
        }
    }
}

/// A consumer of values: put accepts exactly one value. Sinks are
/// infallible from the machine's point of view.
pub trait Sink<T> {
    fn put(&mut self, thing: T);
}

impl<T> Sink<T> for Vec<T> {
    fn put(&mut self, thing: T) {
        self.push(thing);
    }
}

impl<T> Sink<T> for VecDeque<T> {
    fn put(&mut self, thing: T) {
        self.push_back(thing);
    }
}

impl<'a, T> Sink<T> for &'a mut VecDeque<T> {
    fn put(&mut self, thing: T) {
        self.push_back(thing);
    }
}

} // verus!
