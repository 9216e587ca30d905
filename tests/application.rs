use std::cell::{Cell, RefCell};
use std::rc::Rc;

use ghost_ecs::{Application, ApplicationRunner, ResourceCreationError};

struct IdleRunner;

impl ApplicationRunner for IdleRunner {
    fn run(&mut self, _: &mut Application) {
        // Do nothing
    }
}

struct CountingRunner {
    value: Rc<Cell<i32>>,
}

impl ApplicationRunner for CountingRunner {
    fn run(&mut self, _: &mut Application) {
        self.value.set(self.value.get() + 1);
    }
}

fn noop_task(_: &mut Application) {}

fn change_title_task(app: &mut Application) {
    app.set_title("Changed");
}

#[test]
fn can_create_default_application() {
    Application::default();
}

#[test]
fn can_set_and_get_custom_title() {
    let app = Application::default().with_title("custom");

    let expected = "custom";
    let actual = app.title();

    assert_eq!(expected, actual);
}

#[test]
fn default_title_is_ghost_engine() {
    let app = Application::default();

    assert_eq!("Ghost Engine", app.title());
}

#[test]
fn can_set_custom_runner() {
    Application::default().with_runner(IdleRunner);
}

#[test]
fn can_run_application_with_assigned_custom_runner() {
    let value = Rc::new(Cell::new(0));
    let mut app = Application::default().with_runner(CountingRunner { value: value.clone() });

    app.run();

    let expected = 1;
    let actual = value.get();

    assert_eq!(expected, actual);
}

#[test]
fn can_run_application_with_custom_runner() {
    let mut runner = IdleRunner;
    let mut app = Application::default();

    runner.run(&mut app);
}

#[test]
fn test_run_application_with_assigned_custom_runner() {
    let value = Rc::new(Cell::new(0));
    let mut app = Application::default().with_runner(CountingRunner { value: value.clone() });

    app.run();

    let expected = 1;
    let actual = value.get();

    assert_eq!(expected, actual);
}

#[test]
fn test_run_application_with_custom_runner() {
    let mut runner = IdleRunner;
    let mut app = Application::default();

    runner.run(&mut app);
}

#[test]
fn custom_runner_is_kept_after_run() {
    let value = Rc::new(Cell::new(0));
    let mut app = Application::default().with_runner(CountingRunner { value: value.clone() });

    app.run();
    app.run();

    assert_eq!(2, value.get());
}

#[test]
fn can_set_function_as_startup_task() {
    Application::default().with_startup_task(noop_task);
}

#[test]
fn can_set_closure_as_startup_task() {
    let task = |_: &mut Application| {};

    Application::default().with_startup_task(task);
}

#[test]
fn can_execute_closure_as_startup_task() {
    let task = |app: &mut Application| {
        app.set_title("Changed");
    };

    let mut app = Application::default().with_startup_task(task);

    app.run();

    let expected = "Changed";
    let actual = app.title();

    assert_eq!(expected, actual);
}

#[test]
fn can_execute_function_as_startup_task() {
    let mut app = Application::default().with_startup_task(change_title_task);
    app.run();

    let expected = "Changed";
    let actual = app.title();

    assert_eq!(expected, actual);
}

#[test]
fn can_set_function_as_update_task() {
    Application::default().with_update_task(noop_task);
}

#[test]
fn can_set_closure_as_update_task() {
    let task = |_: &mut Application| {};

    Application::default().with_update_task(task);
}

#[test]
fn can_execute_closure_as_update_task() {
    let task = |app: &mut Application| {
        app.set_title("Changed");
    };

    let mut app = Application::default().with_update_task(task);

    app.run();

    let expected = "Changed";
    let actual = app.title();

    assert_eq!(expected, actual);
}

#[test]
fn can_execute_function_as_update_task() {
    let mut app = Application::default().with_update_task(change_title_task);
    app.run();

    let expected = "Changed";
    let actual = app.title();

    assert_eq!(expected, actual);
}

#[test]
fn can_set_function_as_shutdown_task() {
    Application::default().with_shutdown_task(noop_task);
}

#[test]
fn can_set_closure_as_shutdown_task() {
    let task = |_: &mut Application| {};

    Application::default().with_shutdown_task(task);
}

#[test]
fn can_execute_closure_as_shutdown_task() {
    let task = |app: &mut Application| {
        app.set_title("Changed");
    };

    let mut app = Application::default().with_shutdown_task(task);

    app.run();

    let expected = "Changed";
    let actual = app.title();

    assert_eq!(expected, actual);
}

#[test]
fn can_execute_function_as_shutdown_task() {
    let mut app = Application::default().with_shutdown_task(change_title_task);
    app.run();

    let expected = "Changed";
    let actual = app.title();

    assert_eq!(expected, actual);
}

#[test]
fn run_once_runner_runs_startup_update_shutdown_in_order() {
    let log = RefCell::new(Vec::new());
    let mut app = Application::default()
        .with_shutdown_task(|_| log.borrow_mut().push("shutdown"))
        .with_update_task(|_| log.borrow_mut().push("update"))
        .with_startup_task(|_| log.borrow_mut().push("startup"));

    app.run();

    assert_eq!(vec!["startup", "update", "shutdown"], *log.borrow());
}

#[test]
fn tasks_stay_set_after_running() {
    let count = Cell::new(0);
    let mut app = Application::default().with_update_task(|_| count.set(count.get() + 1));

    app.on_update();
    app.on_update();
    app.run();

    assert_eq!(3, count.get());
}

#[test]
fn application_delegates_entities_components_and_resources() {
    let mut app = Application::default();
    let entity = app.create_entity();

    app.add_component::<usize>(entity);
    assert_eq!(Some(&0), app.get_component::<usize>(entity));
    if let Some(component) = app.get_component_mut::<usize>(entity) {
        *component = 8;
    }
    assert_eq!(Some(&8), app.get_component::<usize>(entity));
    app.add_component_with(entity, || 3u8);
    assert_eq!(Some(&3), app.get_component::<u8>(entity));

    assert_eq!(Ok(()), app.add_resource::<u64>());
    assert_eq!(Err(ResourceCreationError::AlreadyRegistered), app.add_resource::<u64>());
    if let Some(resource) = app.get_resource_mut::<u64>() {
        *resource += 2;
    }
    assert_eq!(Some(&2), app.get_resource::<u64>());
    app.remove_resource::<u64>();
    assert_eq!(None, app.get_resource::<u64>());
}

#[test]
fn tasks_can_use_the_application() {
    let mut app = Application::default().with_startup_task(|app| {
        let _ = app.add_resource::<usize>();
        let entity = app.create_entity();
        app.add_component_with(entity, || 5i32);
        if let Some(count) = app.get_resource_mut::<usize>() {
            *count = entity + 10;
        }
    });

    app.run();

    assert_eq!(Some(&10), app.get_resource::<usize>());
    assert_eq!(Some(&5), app.get_component::<i32>(0));
}
