use vstd::prelude::*;

verus! {

/// A unit of work against a target; reports whether it took effect.
pub trait Task<T> {
    /// Performs the work on the target.
    fn execute(&self, target: &mut T) -> bool;
}

/// Queues tasks and runs them in order against one target, remembering how
/// far it has come: a task that reports failure is retried by the next
/// `execute` call rather than skipped.
#[verifier::reject_recursive_types(T)]
pub struct Invoker<'a, T> {
    pub tasks: Vec<Box<dyn Task<T> + 'a>>,
    pub target: T,
    pub current_index: usize,
}

impl<'a, T> Invoker<'a, T> {
    /// An empty queue around the target.
    pub fn new(target: T) -> (r: Self)
        ensures
            r.current_index == 0,
            r.tasks@.len() == 0,
    {
        Self { tasks: Vec::new(), target, current_index: 0 }
    }

    /// The target the tasks work on.
    pub fn get_target(&self) -> (r: &T)
        ensures
            *r == self.target,
    {
        &self.target
    }

    /// Queues one more task behind the ones already given.
    pub fn add<U: Task<T> + 'a>(&mut self, task: U)
        ensures
            final(self).current_index == old(self).current_index,
            final(self).target == old(self).target,
    {
        let b: Box<dyn Task<T> + 'a> = Box::new(task);
        self.tasks.push(b);
    }

    /// Runs the next queued task, if any; advances past it exactly when it
    /// reports success.
    pub fn execute(&mut self) -> (r: bool)
        ensures
            final(self).tasks@.len() == old(self).tasks@.len(),
            old(self).current_index >= old(self).tasks@.len() ==> r == false,
            r ==> final(self).current_index == old(self).current_index + 1,
            !r ==> final(self).current_index == old(self).current_index,
    {
        if self.tasks.len() <= self.current_index {
            return false;
        }
        let c = &self.tasks[self.current_index];
        if c.execute(&mut self.target) {
            self.current_index = self.current_index + 1;
            true
        } else {
            false
        }
    }

    /// Runs one task for every position still queued, in order; reports
    /// whether every run succeeded.
    pub fn execute_all(&mut self) -> (r: bool)
        ensures
            final(self).tasks@.len() == old(self).tasks@.len(),
    {
        let mut result = true;
        let n = self.tasks.len();
        let mut i = self.current_index;
        while i < n
            invariant
                n == self.tasks@.len(),
            decreases n - i,
        {
            let e = self.execute();
            result = result && e;
            i = i + 1;
        }
        result
    }
}

} // verus!
