//! A container of data and lifecycle tasks, run by a swappable runner.

use crate::resources::{add_outcome, ResourceCreationError, ResourceManager};
use crate::universe::{Universe, UniverseView};
use crate::EntityId;
use std::any::TypeId;
use vstd::prelude::*;

verus! {

/// Drives an [`Application`] through its lifecycle.
///
/// Implement it to give an application a runtime of its own.
pub trait ApplicationRunner {
    fn run(&mut self, app: &mut Application);
}

/// Runs one step of an application: startup, one update, shutdown.
pub struct RunOnceRunner;

impl ApplicationRunner for RunOnceRunner {
    fn run(&mut self, app: &mut Application) {
        app.on_startup();
        app.on_update();
        app.on_shutdown();
    }
}

/// A lifecycle task given by the application's user.
///
/// Opaque to proofs: a boxed `dyn Fn` cannot be named in verified code.
#[verifier::external_body]
struct LifecycleTask<'app> {
    task: Box<dyn Fn(&mut Application<'app>) + 'app>,
}

/// Relies on std's unsizing of a closure into a `Box<dyn Fn>`; nothing is stated.
#[verifier::external_body]
fn box_task<'app, F: Fn(&mut Application<'app>) + 'app>(task: F) -> LifecycleTask<'app> {
    LifecycleTask { task: Box::new(task) }
}

/// Relies on std's `Fn::call` to run the user's task; nothing is known of what it
/// does to `app`.
#[verifier::external_body]
fn call_task<'app>(t: &LifecycleTask<'app>, app: &mut Application<'app>) {
    (t.task)(app)
}

/// Holds the application's runner.
///
/// Opaque to proofs: a field of type `Box<dyn ApplicationRunner>` inside
/// `Application` would make the two definitions refer to each other, which the
/// verifier refuses.
#[verifier::external_body]
struct RunnerSlot {
    runner: Box<dyn ApplicationRunner>,
}

/// Relies on std's unsizing of a runner into a `Box<dyn ApplicationRunner>`.
#[verifier::external_body]
fn slot_for(runner: Box<dyn ApplicationRunner>) -> RunnerSlot {
    RunnerSlot { runner }
}

/// Relies on std's `mem::swap`: exchanges the held runner and `other`.
#[verifier::external_body]
fn swap_runner(slot: &mut RunnerSlot, other: &mut Box<dyn ApplicationRunner>) {
    std::mem::swap(&mut slot.runner, other)
}

/// Relies on std's `Box::as_ref`: a reference to the held runner.
#[verifier::external_body]
fn runner_ref(slot: &RunnerSlot) -> &dyn ApplicationRunner {
    slot.runner.as_ref()
}

/// A container of logic and data: a [`ResourceManager`], a [`Universe`], startup,
/// update and shutdown tasks, and the runner that [`Application::run`] hands the
/// application to. A new application has the title "Ghost Engine", no task, and a
/// [`RunOnceRunner`].
pub struct Application<'app> {
    title: String,
    resources: ResourceManager,
    universe: Universe,
    startup_task: Option<LifecycleTask<'app>>,
    shutdown_task: Option<LifecycleTask<'app>>,
    update_task: Option<LifecycleTask<'app>>,
    runner: RunnerSlot,
}

impl<'app> Default for Application<'app> {
    fn default() -> (r: Self)
        ensures
            r.wf(),
            r.title_view() == "Ghost Engine"@,
            r.universe_view() == UniverseView::empty(),
            r.resources_view() == Set::<TypeId>::empty(),
            r.tasks_set() == (false, false, false),
    {
        let runner: Box<dyn ApplicationRunner> = Box::new(RunOnceRunner);
        let title = "Ghost Engine".to_owned();
        proof {
            reveal_strlit("Ghost Engine");
        }
        Application {
            title,
            resources: ResourceManager::new(),
            universe: Universe::new(),
            startup_task: None,
            shutdown_task: None,
            update_task: None,
            runner: slot_for(runner),
        }
    }
}

impl<'app> Application<'app> {
    /// The application's invariant: its universe and its registry are well formed.
    pub open spec fn wf(&self) -> bool {
        self.universe_view().wf() && self.parts_wf()
    }

    /// The universe and the registry are well formed.
    pub closed spec fn parts_wf(&self) -> bool {
        self.universe.wf() && self.resources.wf()
    }

    pub closed spec fn title_view(&self) -> Seq<char> {
        self.title@
    }

    pub closed spec fn universe_view(&self) -> UniverseView {
        self.universe@
    }

    pub closed spec fn resources_view(&self) -> Set<TypeId> {
        self.resources@
    }

    /// Whether each of the startup, update and shutdown tasks is set.
    pub closed spec fn tasks_set(&self) -> (bool, bool, bool) {
        (self.startup_task is Some, self.update_task is Some, self.shutdown_task is Some)
    }

    /// The application with its title set to `title`.
    pub fn with_title(self, title: &str) -> (r: Self)
        ensures
            r.title_view() == title@,
            r.wf() == self.wf(),
            r.universe_view() == self.universe_view(),
            r.resources_view() == self.resources_view(),
            r.tasks_set() == self.tasks_set(),
    {
        let mut app = self;
        app.title = title.to_owned();
        app
    }

    /// The application with `runner` as its runner.
    pub fn with_runner(self, runner: impl ApplicationRunner + 'static) -> (r: Self)
        ensures
            r.title_view() == self.title_view(),
            r.wf() == self.wf(),
            r.universe_view() == self.universe_view(),
            r.resources_view() == self.resources_view(),
            r.tasks_set() == self.tasks_set(),
    {
        let mut app = self;
        let mut boxed: Box<dyn ApplicationRunner> = Box::new(runner);
        swap_runner(&mut app.runner, &mut boxed);
        app
    }

    /// The application with `task` as its startup task, replacing any other.
    pub fn with_startup_task(self, task: impl Fn(&mut Application<'app>) + 'app) -> (r: Self)
        ensures
            r.title_view() == self.title_view(),
            r.wf() == self.wf(),
            r.universe_view() == self.universe_view(),
            r.resources_view() == self.resources_view(),
            r.tasks_set() == (true, self.tasks_set().1, self.tasks_set().2),
    {
        let mut app = self;
        app.startup_task = Some(box_task(task));
        app
    }

    /// The application with `task` as its shutdown task, replacing any other.
    pub fn with_shutdown_task(self, task: impl Fn(&mut Application<'app>) + 'app) -> (r: Self)
        ensures
            r.title_view() == self.title_view(),
            r.wf() == self.wf(),
            r.universe_view() == self.universe_view(),
            r.resources_view() == self.resources_view(),
            r.tasks_set() == (self.tasks_set().0, self.tasks_set().1, true),
    {
        let mut app = self;
        app.shutdown_task = Some(box_task(task));
        app
    }

    /// The application with `task` as its update task, replacing any other.
    pub fn with_update_task(self, task: impl Fn(&mut Application<'app>) + 'app) -> (r: Self)
        ensures
            r.title_view() == self.title_view(),
            r.wf() == self.wf(),
            r.universe_view() == self.universe_view(),
            r.resources_view() == self.resources_view(),
            r.tasks_set() == (self.tasks_set().0, true, self.tasks_set().2),
    {
        let mut app = self;
        app.update_task = Some(box_task(task));
        app
    }

    pub fn title(&self) -> (r: &str)
        ensures
            r@ == self.title_view(),
    {
        self.title.as_str()
    }

    /// Replaces the title.
    pub fn set_title(&mut self, title: &str)
        ensures
            final(self).title_view() == title@,
            final(self).wf() == old(self).wf(),
            final(self).universe_view() == old(self).universe_view(),
            final(self).resources_view() == old(self).resources_view(),
            final(self).tasks_set() == old(self).tasks_set(),
    {
        self.title = title.to_owned();
    }

    pub fn runner(&self) -> &dyn ApplicationRunner {
        runner_ref(&self.runner)
    }

    /// Creates an entity in the application's universe; see [`Universe::create_entity`].
    pub fn create_entity(&mut self) -> (r: EntityId)
        requires
            old(self).wf(),
            old(self).universe_view().next_id < usize::MAX,
        ensures
            final(self).wf(),
            final(self).title_view() == old(self).title_view(),
            final(self).tasks_set() == old(self).tasks_set(),
            r == old(self).universe_view().next_id,
            final(self).universe_view() == old(self).universe_view().created(),
            final(self).resources_view() == old(self).resources_view(),
    {
        self.universe.create_entity()
    }

    /// See [`ResourceManager::get_resource`].
    pub fn get_resource<T: Default + 'static>(&self) -> (r: Option<&T>)
        requires
            self.wf(),
        ensures
            exists|k: TypeId| (r is Some) == #[trigger] self.resources_view().contains(k),
    {
        let r = self.resources.get_resource::<T>();
        proof {
            let k = choose|k: TypeId| (r is Some) == self.resources@.contains(k);
            assert((r is Some) == self.resources_view().contains(k));
        }
        r
    }

    /// See [`ResourceManager::get_resource_mut`].
    pub fn get_resource_mut<T: Default + 'static>(&mut self) -> (r: Option<&mut T>)
        requires
            old(self).wf(),
        ensures
            final(self).wf(),
            final(self).title_view() == old(self).title_view(),
            final(self).tasks_set() == old(self).tasks_set(),
            final(self).resources_view() == old(self).resources_view(),
            final(self).universe_view() == old(self).universe_view(),
            exists|k: TypeId| (r is Some) == #[trigger] old(self).resources_view().contains(k),
    {
        let ghost pre = self.resources;
        let r = self.resources.get_resource_mut::<T>();
        proof {
            let k = choose|k: TypeId| (r is Some) == pre@.contains(k);
            assert((r is Some) == old(self).resources_view().contains(k));
        }
        r
    }

    /// See [`ResourceManager::add_resource`].
    pub fn add_resource<T: Default + 'static>(&mut self) -> (r: Result<(), ResourceCreationError>)
        requires
            old(self).wf(),
        ensures
            final(self).wf(),
            final(self).title_view() == old(self).title_view(),
            final(self).tasks_set() == old(self).tasks_set(),
            final(self).universe_view() == old(self).universe_view(),
            exists|k: TypeId|
                r == #[trigger] add_outcome(old(self).resources_view(), k)
                    && final(self).resources_view() == old(self).resources_view().insert(k),
    {
        let r = self.resources.add_resource::<T>();
        proof {
            let k = choose|k: TypeId|
                r == add_outcome(old(self).resources@, k) && self.resources@ == old(
                    self,
                ).resources@.insert(k);
            assert(r == add_outcome(old(self).resources_view(), k));
        }
        r
    }

    /// See [`ResourceManager::remove_resource`].
    pub fn remove_resource<T: Default + 'static>(&mut self)
        requires
            old(self).wf(),
        ensures
            final(self).wf(),
            final(self).title_view() == old(self).title_view(),
            final(self).tasks_set() == old(self).tasks_set(),
            final(self).universe_view() == old(self).universe_view(),
            exists|k: TypeId|
                final(self).resources_view() == #[trigger] old(self).resources_view().remove(k),
    {
        self.resources.remove_resource::<T>();
        proof {
            let k = choose|k: TypeId| self.resources@ == old(self).resources@.remove(k);
            assert(self.resources_view() == old(self).resources_view().remove(k));
        }
    }

    /// See [`Universe::add_component`].
    pub fn add_component<T: Default + 'static>(&mut self, entity: EntityId)
        requires
            old(self).wf(),
        ensures
            final(self).wf(),
            final(self).title_view() == old(self).title_view(),
            final(self).tasks_set() == old(self).tasks_set(),
            final(self).resources_view() == old(self).resources_view(),
            exists|k: TypeId|
                final(self).universe_view() == #[trigger] old(self).universe_view().attached(
                    k,
                    entity,
                ),
    {
        self.universe.add_component::<T>(entity);
        proof {
            let k = choose|k: TypeId| self.universe@ == old(self).universe@.attached(k, entity);
            assert(self.universe_view() == old(self).universe_view().attached(k, entity));
        }
    }

    /// See [`Universe::add_component_with`].
    pub fn add_component_with<T, BUILDER>(&mut self, entity: EntityId, builder: BUILDER)
        where
            T: Default + 'static,
            BUILDER: FnOnce() -> T,
        requires
            old(self).wf(),
            builder.requires(()),
        ensures
            final(self).wf(),
            final(self).title_view() == old(self).title_view(),
            final(self).tasks_set() == old(self).tasks_set(),
            final(self).resources_view() == old(self).resources_view(),
            exists|k: TypeId|
                final(self).universe_view() == #[trigger] old(self).universe_view().attached(
                    k,
                    entity,
                ),
    {
        self.universe.add_component_with(entity, builder);
        proof {
            let k = choose|k: TypeId| self.universe@ == old(self).universe@.attached(k, entity);
            assert(self.universe_view() == old(self).universe_view().attached(k, entity));
        }
    }

    /// See [`Universe::get_component`].
    pub fn get_component<T: Default + 'static>(&self, entity: EntityId) -> (r: Option<&T>)
        requires
            self.wf(),
        ensures
            exists|k: TypeId| (r is Some) == #[trigger] self.universe_view().has(k, entity),
    {
        let r = self.universe.get_component::<T>(entity);
        proof {
            let k = choose|k: TypeId| (r is Some) == self.universe@.has(k, entity);
            assert((r is Some) == self.universe_view().has(k, entity));
        }
        r
    }

    /// See [`Universe::get_component_mut`].
    pub fn get_component_mut<T: Default + 'static>(&mut self, entity: EntityId) -> (r: Option<
        &mut T,
    >)
        requires
            old(self).wf(),
        ensures
            final(self).wf(),
            final(self).title_view() == old(self).title_view(),
            final(self).tasks_set() == old(self).tasks_set(),
            final(self).universe_view() == old(self).universe_view(),
            final(self).resources_view() == old(self).resources_view(),
            exists|k: TypeId| (r is Some) == #[trigger] old(self).universe_view().has(k, entity),
    {
        let ghost pre = self.universe;
        let r = self.universe.get_component_mut::<T>(entity);
        proof {
            let k = choose|k: TypeId| (r is Some) == pre@.has(k, entity);
            assert((r is Some) == old(self).universe_view().has(k, entity));
        }
        r
    }

    /// Runs the startup task, if one is set. The task is taken out while it runs, so
    /// that it can borrow the application, and put back afterwards.
    pub fn on_startup(&mut self)
        ensures
            old(self).tasks_set().0 ==> final(self).tasks_set().0,
            !old(self).tasks_set().0 ==> {
                &&& final(self).title_view() == old(self).title_view()
                &&& final(self).universe_view() == old(self).universe_view()
                &&& final(self).resources_view() == old(self).resources_view()
                &&& final(self).tasks_set() == old(self).tasks_set()
                &&& final(self).wf() == old(self).wf()
            },
    {
        let task = self.startup_task.take();
        if let Some(t) = &task {
            call_task(t, self);
        }
        self.startup_task = task;
    }

    /// Runs the shutdown task, if one is set; see [`Application::on_startup`].
    pub fn on_shutdown(&mut self)
        ensures
            old(self).tasks_set().2 ==> final(self).tasks_set().2,
            !old(self).tasks_set().2 ==> {
                &&& final(self).title_view() == old(self).title_view()
                &&& final(self).universe_view() == old(self).universe_view()
                &&& final(self).resources_view() == old(self).resources_view()
                &&& final(self).tasks_set() == old(self).tasks_set()
                &&& final(self).wf() == old(self).wf()
            },
    {
        let task = self.shutdown_task.take();
        if let Some(t) = &task {
            call_task(t, self);
        }
        self.shutdown_task = task;
    }

    /// Runs the update task, if one is set; see [`Application::on_startup`].
    pub fn on_update(&mut self)
        ensures
            old(self).tasks_set().1 ==> final(self).tasks_set().1,
            !old(self).tasks_set().1 ==> {
                &&& final(self).title_view() == old(self).title_view()
                &&& final(self).universe_view() == old(self).universe_view()
                &&& final(self).resources_view() == old(self).resources_view()
                &&& final(self).tasks_set() == old(self).tasks_set()
                &&& final(self).wf() == old(self).wf()
            },
    {
        let task = self.update_task.take();
        if let Some(t) = &task {
            call_task(t, self);
        }
        self.update_task = task;
    }

    /// Hands the application to its runner. While the runner works, a
    /// [`RunOnceRunner`] stands in its place; the runner is put back afterwards.
    pub fn run(&mut self) {
        let mut runner: Box<dyn ApplicationRunner> = Box::new(RunOnceRunner);
        swap_runner(&mut self.runner, &mut runner);
        runner.run(self);
        swap_runner(&mut self.runner, &mut runner);
    }
}

} // verus!
