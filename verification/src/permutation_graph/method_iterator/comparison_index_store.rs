pub mod comparison_index_store_builder;

use std::sync::mpsc::{Receiver, Sender};
use vstd::prelude::*;

use crate::permutation_graph::method_iterator::channel_helper::{recv_or_error, send_or_error};
use crate::permutation_graph::method_iterator::comparison_status::ComparisonStatus;

pub use comparison_index_store_builder::ComparisonIndexStoreBuilder;

verus! {

/// The inner index a cursor starts comparing at for a given outer index.
pub open spec fn start_comparison_index(last_index: usize, start_index: usize) -> usize {
    if last_index == 0 && start_index == 0 {
        0usize
    } else {
        (start_index + 1) as usize
    }
}

/// One worker's cursor over the pair-comparison space: a fixed outer index,
/// a moving inner index, and the channels through which the worker reports
/// to the consumer and is handed fresh outer indices.
pub struct ComparisonIndexStore {
    pub last_index: usize,
    pub start_index: usize,
    pub current_index: usize,
    pub status_sender: Sender<ComparisonStatus>,
    pub index_receiver: Receiver<usize>,
    pub comparison_index: usize,
}

impl ComparisonIndexStore {
    /// A cursor whose outer index starts at `start_index` and whose inner
    /// index starts just past it.
    pub fn new(
        last_index: usize,
        start_index: usize,
        status_sender: Sender<ComparisonStatus>,
        index_receiver: Receiver<usize>,
    ) -> (r: ComparisonIndexStore)
        requires
            start_index < usize::MAX,
        ensures
            r.last_index == last_index,
            r.start_index == start_index,
            r.current_index == start_index,
            r.comparison_index == start_comparison_index(last_index, start_index),
    {
        ComparisonIndexStore {
            last_index,
            start_index,
            current_index: start_index,
            status_sender,
            index_receiver,
            comparison_index: Self::get_start_comparison_index(last_index, start_index),
        }
    }

    fn get_start_comparison_index(last_index: usize, start_index: usize) -> (r: usize)
        requires
            start_index < usize::MAX,
        ensures
            r == start_comparison_index(last_index, start_index),
    {
        if last_index == 0 && start_index == 0 {
            0
        } else {
            start_index + 1
        }
    }

    /// Advances the inner index. When the inner range is exhausted, asks the
    /// consumer for a fresh outer index, blocks until one arrives, and moves
    /// the cursor there; which index arrives is the consumer's choice alone.
    pub fn increment_indexes(&mut self)
        requires
            old(self).last_index < usize::MAX,
            old(self).comparison_index != old(self).last_index + 1 ==> old(self).comparison_index
                < usize::MAX,
        ensures
            final(self).last_index == old(self).last_index,
            final(self).start_index == old(self).start_index,
            old(self).comparison_index == old(self).last_index + 1 ==> {
                &&& final(self).current_index < usize::MAX ==> final(self).comparison_index
                    == final(self).current_index + 1
                &&& final(self).current_index == usize::MAX ==> final(self).comparison_index
                    == usize::MAX
            },
            old(self).comparison_index != old(self).last_index + 1 ==> {
                &&& final(self).current_index == old(self).current_index
                &&& final(self).comparison_index == old(self).comparison_index + 1
            },
    {
        if self.comparison_index == self.last_index + 1 {
            send_or_error(&self.status_sender, ComparisonStatus::NextIndex(self.start_index));
            self.current_index = recv_or_error(&self.index_receiver);
            self.comparison_index = if self.current_index < usize::MAX {
                self.current_index + 1
            } else {
                usize::MAX
            };
        } else {
            self.comparison_index = self.comparison_index + 1;
        }
    }

    /// The outer index the cursor currently compares from.
    pub fn get_current_index(&self) -> (r: usize)
        ensures
            r == self.current_index,
    {
        self.current_index
    }

    /// The inner index the cursor currently compares against.
    pub fn get_comparison_index(&self) -> (r: usize)
        ensures
            r == self.comparison_index,
    {
        self.comparison_index
    }

    /// Whether the cursor's outer index still lies inside the index space.
    pub fn is_running(&self) -> (r: bool)
        ensures
            r == (self.current_index < self.last_index),
    {
        self.current_index < self.last_index
    }

    /// Whether the cursor's inner index still lies inside the index space.
    pub fn is_running_comparison(&self) -> (r: bool)
        ensures
            r == (self.comparison_index <= self.last_index),
    {
        self.comparison_index <= self.last_index
    }
}

} // verus!
