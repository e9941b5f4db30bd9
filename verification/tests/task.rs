use nae::task::Invoker;
use nae::task::Task;

struct Target {
    val: bool,
}

impl Target {
    fn new() -> Self {
        Self { val: false }
    }

    fn get(&self) -> bool {
        self.val
    }
}

struct UpdateTrueTask;

impl Task<Target> for UpdateTrueTask {
    fn execute(&self, target: &mut Target) -> bool {
        target.val = true;
        true
    }
}

struct UpdateFalseTask;

impl Task<Target> for UpdateFalseTask {
    fn execute(&self, target: &mut Target) -> bool {
        target.val = false;
        true
    }
}

#[test]
fn task_test() {
    let target = Target::new();
    let mut invoker = Invoker::new(target);

    assert_eq!(false, invoker.get_target().get());

    invoker.add(UpdateTrueTask);
    assert!(invoker.execute());
    assert_eq!(true, invoker.get_target().get());

    invoker.add(UpdateFalseTask);
    assert!(invoker.execute());
    assert_eq!(false, invoker.get_target().get());
}

#[test]
fn test_execute_all_runs_everything() {
    let target = Target::new();
    let mut invoker = Invoker::new(target);
    invoker.add(UpdateTrueTask);
    invoker.add(UpdateFalseTask);
    invoker.add(UpdateTrueTask);
    assert!(invoker.execute_all());
    assert_eq!(true, invoker.get_target().get());
    // everything already ran: another step is a no-op that reports failure
    assert!(!invoker.execute());
}
