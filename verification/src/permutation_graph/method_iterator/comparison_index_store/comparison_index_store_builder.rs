use std::sync::mpsc::{Receiver, Sender};
use vstd::prelude::*;

use crate::permutation_graph::method_iterator::comparison_index_store::{
    start_comparison_index, ComparisonIndexStore,
};
use crate::permutation_graph::method_iterator::comparison_status::ComparisonStatus;

verus! {

/// Gathers the four ingredients of a comparison cursor one call at a time.
/// Building with any of them missing is a caller error and is ruled out by
/// the precondition of `build`.
pub struct ComparisonIndexStoreBuilder {
    pub last_index: Option<usize>,
    pub start_index: Option<usize>,
    pub status_sender: Option<Sender<ComparisonStatus>>,
    pub index_receiver: Option<Receiver<usize>>,
}

impl ComparisonIndexStoreBuilder {
    /// A builder with every field still to be supplied.
    pub fn new() -> (r: ComparisonIndexStoreBuilder)
        ensures
            r.last_index is None,
            r.start_index is None,
            r.status_sender is None,
            r.index_receiver is None,
    {
        ComparisonIndexStoreBuilder {
            last_index: None,
            start_index: None,
            status_sender: None,
            index_receiver: None,
        }
    }

    /// Supplies the last index of the comparison space.
    pub fn last_index(self, index: usize) -> (r: Self)
        ensures
            r.last_index == Some(index),
            r.start_index == self.start_index,
            r.status_sender == self.status_sender,
            r.index_receiver == self.index_receiver,
    {
        ComparisonIndexStoreBuilder { last_index: Some(index), ..self }
    }

    /// Supplies the outer index the cursor starts from.
    pub fn start_index(self, index: usize) -> (r: Self)
        ensures
            r.start_index == Some(index),
            r.last_index == self.last_index,
            r.status_sender == self.status_sender,
            r.index_receiver == self.index_receiver,
    {
        ComparisonIndexStoreBuilder { start_index: Some(index), ..self }
    }

    /// Supplies the channel the worker reports on.
    pub fn status_sender(self, sender: Sender<ComparisonStatus>) -> (r: Self)
        ensures
            r.status_sender == Some(sender),
            r.last_index == self.last_index,
            r.start_index == self.start_index,
            r.index_receiver == self.index_receiver,
    {
        ComparisonIndexStoreBuilder { status_sender: Some(sender), ..self }
    }

    /// Supplies the channel fresh outer indices arrive on.
    pub fn index_receiver(self, receiver: Receiver<usize>) -> (r: Self)
        ensures
            r.index_receiver == Some(receiver),
            r.last_index == self.last_index,
            r.start_index == self.start_index,
            r.status_sender == self.status_sender,
    {
        ComparisonIndexStoreBuilder { index_receiver: Some(receiver), ..self }
    }

    /// Builds the cursor from the four supplied ingredients.
    pub fn build(self) -> (r: ComparisonIndexStore)
        requires
            self.last_index is Some,
            self.start_index is Some,
            self.status_sender is Some,
            self.index_receiver is Some,
            self.start_index.unwrap() < usize::MAX,
        ensures
            r.last_index == self.last_index.unwrap(),
            r.start_index == self.start_index.unwrap(),
            r.current_index == self.start_index.unwrap(),
            r.comparison_index == start_comparison_index(
                self.last_index.unwrap(),
                self.start_index.unwrap(),
            ),
    {
        match (self.last_index, self.start_index, self.status_sender, self.index_receiver) {
            (Some(last_index), Some(start_index), Some(status_sender), Some(index_receiver)) => {
                ComparisonIndexStore::new(last_index, start_index, status_sender, index_receiver)
            },
            _ => unreached(),
        }
    }
}

} // verus!
