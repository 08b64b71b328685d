//! The iterator protocol adapter: turns an iterable value — an object
//! reference into the context's object store — into a pull-based cursor
//! that yields one value per call together with a completion flag.

use vstd::prelude::*;
use crate::context::{Context, InterpreterError};
use crate::value::Value;

verus! {

/// One pull from an iterator: the completion flag and, while not complete,
/// the next value.
#[derive(Debug, PartialEq)]
pub struct IteratorResult {
    pub done: bool,
    pub value: Value,
}

impl IteratorResult {
    /// Whether the iterator reported completion.
    pub fn is_done(&self) -> (r: bool)
        ensures
            r == self.done,
    {
        self.done
    }

    /// The value pulled, the absent value once complete.
    pub fn value(&self) -> (r: Value)
        ensures
            r@ == self.value@,
    {
        self.value.duplicate()
    }
}

/// A pull-based cursor over one object of the context's store.
#[derive(Debug, PartialEq)]
pub struct IteratorHandle {
    pub object: usize,
    pub position: usize,
}

/// Obtains an iterator over an iterable value: an object reference into
/// the context's store. Any other value is not iterable.
pub fn get_iterator(context: &Context, value: &Value) -> (r: Result<
    IteratorHandle,
    InterpreterError,
>)
    ensures
        match r {
            Ok(h) => value@ matches crate::value::AbstractValue::Object(id) && h.object == id
                && id < context.objects@.len() && h.position == 0,
            Err(e) => e is Type && !(value@ matches crate::value::AbstractValue::Object(id)
                && id < context.objects@.len()),
        },
{
    match value {
        Value::Object(id) => {
            if *id < context.objects.len() {
                Ok(IteratorHandle { object: *id, position: 0 })
            } else {
                Err(InterpreterError::Type("value is not iterable".to_owned()))
            }
        },
        _ => Err(InterpreterError::Type("value is not iterable".to_owned())),
    }
}

impl IteratorHandle {
    /// Pulls the next step from the iterator: the element at the cursor and
    /// an advanced cursor, or the completion flag once the elements are
    /// exhausted.
    pub fn next(&mut self, context: &Context) -> (r: Result<IteratorResult, InterpreterError>)
        requires
            (old(self).object as int) < context.objects@.len(),
        ensures
            final(self).object == old(self).object,
            r matches Ok(ir) && ({
                let elems = context.objects@[old(self).object as int]@;
                if (old(self).position as int) < elems.len() {
                    ir.done == false && ir.value@ == elems[old(self).position as int]@
                        && final(self).position == old(self).position + 1
                } else {
                    ir.done == true && ir.value@ == crate::value::AbstractValue::Undefined
                        && final(self).position == old(self).position
                }
            }),
    {
        let elems = &context.objects[self.object];
        if self.position < elems.len() {
            let v = elems[self.position].duplicate();
            self.position = self.position + 1;
            Ok(IteratorResult { done: false, value: v })
        } else {
            Ok(IteratorResult { done: true, value: Value::Undefined })
        }
    }
}

} // verus!
