//! Applications and the registry that tracks them.

use vstd::prelude::*;
use vstd::string::StringSliceAdditionalSpecFns;
use crate::gui::window::{WindowId, clipped};
use crate::util::{
    count_some, first_match, is_first_match, lemma_count_some_bounds, lemma_count_some_update,
    lemma_first_match_exists, lemma_first_match_is, lemma_first_match_none,
};

verus! {

/// Application state.
#[derive(Debug, Clone, Copy, PartialEq, Eq, Structural)]
pub enum AppState {
    Starting,
    Running,
    Paused,
    Stopped,
}

/// An application: id, name, state, main window and process.
#[derive(Clone, Copy)]
pub struct Application {
    pub app_id: u32,
    pub name: [u8; 256],
    pub name_len: usize,
    pub state: AppState,
    pub main_window: Option<WindowId>,
    pub process_id: u64,
}

/// A name buffer holding `name` (clipped to 256 bytes) and zeros after it.
pub open spec fn name_buffer(name: Seq<u8>) -> Seq<u8> {
    clipped(name) + Seq::new((256 - clipped(name).len()) as nat, |i: int| 0u8)
}

/// `a` is a new application `app_id` named `name`: starting, no window, no
/// process.
pub open spec fn is_new_app(a: Application, app_id: u32, name: Seq<u8>) -> bool {
    &&& a.app_id == app_id
    &&& a.name@ == name_buffer(name)
    &&& a.name_len == clipped(name).len()
    &&& a.state == AppState::Starting
    &&& a.main_window is None
    &&& a.process_id == 0
}

impl Application {
    pub fn new(app_id: u32, name: &str) -> (r: Self)
        ensures
            is_new_app(r, app_id, name.spec_bytes()),
    {
        let mut app_name = [0u8; 256];
        let bytes = name.as_bytes();
        let len = if bytes.len() < 256 { bytes.len() } else { 256 };
        let mut i: usize = 0;
        while i < len
            invariant
                bytes@ == name.spec_bytes(),
                len == clipped(bytes@).len(),
                len <= bytes@.len(),
                i <= len,
                app_name@.len() == 256,
                forall|j: int| 0 <= j < i ==> app_name@[j] == bytes@[j],
                forall|j: int| i <= j < 256 ==> app_name@[j] == 0,
            decreases len - i,
        {
            app_name[i] = bytes[i];
            i += 1;
        }
        assert(app_name@ =~= name_buffer(bytes@));
        Application {
            app_id,
            name: app_name,
            name_len: len,
            state: AppState::Starting,
            main_window: None,
            process_id: 0,
        }
    }

    pub fn run(&mut self)
        ensures
            *final(self) == (Application { state: AppState::Running, ..*old(self) }),
    {
        self.state = AppState::Running;
    }

    pub fn pause(&mut self)
        ensures
            *final(self) == (Application { state: AppState::Paused, ..*old(self) }),
    {
        self.state = AppState::Paused;
    }

    pub fn stop(&mut self)
        ensures
            *final(self) == (Application { state: AppState::Stopped, ..*old(self) }),
    {
        self.state = AppState::Stopped;
    }
}

/// Most applications registered at once.
pub const MAX_APPS: usize = 32;

/// The application registry: slots, how many are taken, the next id.
pub struct AppRegistry {
    apps: [Option<Application>; 32],
    app_count: usize,
    next_id: u32,
}

/// The state of a registry.
pub struct AppRegistryModel {
    pub slots: Seq<Option<Application>>,
    pub count: nat,
    pub next_id: u32,
}

impl View for AppRegistry {
    type V = AppRegistryModel;

    closed spec fn view(&self) -> AppRegistryModel {
        AppRegistryModel { slots: self.apps@, count: self.app_count as nat, next_id: self.next_id }
    }
}

/// Slot holds application `id`.
pub open spec fn slot_app(id: u32) -> spec_fn(Option<Application>) -> bool {
    |s: Option<Application>| s is Some && s->0.app_id == id
}

/// Slot is free.
pub open spec fn slot_unused() -> spec_fn(Option<Application>) -> bool {
    |s: Option<Application>| s is None
}

impl AppRegistryModel {
    /// `MAX_APPS` slots, `count` of them taken, every id below `next_id`
    /// and held once.
    pub open spec fn wf(self) -> bool {
        &&& self.slots.len() == MAX_APPS
        &&& self.count == count_some(self.slots)
        &&& forall|i: int| 0 <= i < MAX_APPS && (#[trigger] self.slots[i]) is Some ==> self.slots[i]->0.app_id < self.next_id
        &&& forall|i: int, j: int|
            0 <= i < j < MAX_APPS && (#[trigger] self.slots[i]) is Some && (#[trigger] self.slots[j]) is Some
                ==> self.slots[i]->0.app_id != self.slots[j]->0.app_id
    }

    /// Application `id`, if registered.
    pub open spec fn get(self, id: u32) -> Option<Application> {
        match first_match(self.slots, slot_app(id)) {
            Some(i) => self.slots[i],
            None => None,
        }
    }

    /// The registry with application `id` (if registered) changed by `f`.
    pub open spec fn update_app(self, id: u32, f: spec_fn(Application) -> Application) -> AppRegistryModel {
        match first_match(self.slots, slot_app(id)) {
            Some(i) => AppRegistryModel { slots: self.slots.update(i, Some(f(self.slots[i]->0))), ..self },
            None => self,
        }
    }
}

/// What `register_app` does.
pub open spec fn register_outcome(old: AppRegistryModel, new: AppRegistryModel, name: Seq<u8>, r: Option<u32>) -> bool {
    if old.count < MAX_APPS {
        match first_match(old.slots, slot_unused()) {
            Some(k) => {
                &&& r == Some(old.next_id)
                &&& new.next_id == old.next_id + 1
                &&& new.count == old.count + 1
                &&& new.slots == old.slots.update(k, new.slots[k])
                &&& new.slots[k] matches Some(a) && is_new_app(a, old.next_id, name)
            },
            None => false,
        }
    } else {
        r is None && new == old
    }
}

/// What `unregister_app` does.
pub open spec fn unregister_outcome(old: AppRegistryModel, new: AppRegistryModel, id: u32) -> bool {
    match first_match(old.slots, slot_app(id)) {
        Some(i) => new == (AppRegistryModel { slots: old.slots.update(i, None), count: (old.count - 1) as nat, ..old }),
        None => new == old,
    }
}

/// The application run.
pub open spec fn running() -> spec_fn(Application) -> Application {
    |a: Application| Application { state: AppState::Running, ..a }
}

/// The application with main window `w`.
pub open spec fn with_window(w: WindowId) -> spec_fn(Application) -> Application {
    |a: Application| Application { main_window: Some(w), ..a }
}

impl AppRegistry {
    pub fn new() -> (r: Self)
        ensures
            r@.wf(),
            r@.slots == Seq::new(MAX_APPS as nat, |i: int| None::<Application>),
            r@.count == 0,
            r@.next_id == 1,
    {
        let r = AppRegistry { apps: [None; 32], app_count: 0, next_id: 1 };
        assert(r@.slots =~= Seq::new(MAX_APPS as nat, |i: int| None::<Application>));
        proof {
            lemma_count_some_bounds(r@.slots);
        }
        r
    }

    fn find_app(&self, id: u32) -> (r: Option<usize>)
        ensures
            match r {
                Some(i) => first_match(self@.slots, slot_app(id)) == Some(i as int),
                None => first_match(self@.slots, slot_app(id)) is None,
            },
    {
        let ghost p = slot_app(id);
        let mut i: usize = 0;
        while i < MAX_APPS
            invariant
                p == slot_app(id),
                self@.slots == self.apps@,
                i <= MAX_APPS,
                forall|j: int| 0 <= j < i ==> !p(#[trigger] self@.slots[j]),
            decreases MAX_APPS - i,
        {
            if let Some(a) = &self.apps[i] {
                if a.app_id == id {
                    proof {
                        assert(is_first_match(self@.slots, p, i as int));
                        lemma_first_match_is(self@.slots, p, i as int);
                    }
                    return Some(i);
                }
            }
            i += 1;
        }
        proof {
            lemma_first_match_none(self@.slots, p);
        }
        None
    }

    fn find_unused(&self) -> (r: Option<usize>)
        ensures
            match r {
                Some(i) => first_match(self@.slots, slot_unused()) == Some(i as int),
                None => first_match(self@.slots, slot_unused()) is None,
            },
    {
        let ghost p = slot_unused();
        let mut i: usize = 0;
        while i < MAX_APPS
            invariant
                p == slot_unused(),
                self@.slots == self.apps@,
                i <= MAX_APPS,
                forall|j: int| 0 <= j < i ==> !p(#[trigger] self@.slots[j]),
            decreases MAX_APPS - i,
        {
            if self.apps[i].is_none() {
                proof {
                    assert(is_first_match(self@.slots, p, i as int));
                    lemma_first_match_is(self@.slots, p, i as int);
                }
                return Some(i);
            }
            i += 1;
        }
        proof {
            lemma_first_match_none(self@.slots, p);
        }
        None
    }

    /// Register an application named `name` and return its id; `None` when
    /// the registry is full.
    pub fn register_app(&mut self, name: &str) -> (r: Option<u32>)
        requires
            old(self)@.wf(),
            old(self)@.count < MAX_APPS ==> old(self)@.next_id < u32::MAX,
        ensures
            final(self)@.wf(),
            register_outcome(old(self)@, final(self)@, name.spec_bytes(), r),
    {
        let ghost m0 = self@;
        if self.app_count < MAX_APPS {
            let id = self.next_id;
            self.next_id += 1;
            let app = Application::new(id, name);
            proof {
                lemma_count_some_bounds(m0.slots);
                let i = choose|i: int| 0 <= i < MAX_APPS && !(#[trigger] m0.slots[i] is Some);
                assert(slot_unused()(m0.slots[i]));
                lemma_first_match_exists(m0.slots, slot_unused(), i);
            }
            if let Some(k) = self.find_unused() {
                let ghost before = self@;
                self.apps[k] = Some(app);
                proof {
                    lemma_count_some_update(before.slots, k as int, Some(app));
                    assert(self@.slots == before.slots.update(k as int, Some(app)));
                }
                self.app_count += 1;
                return Some(id);
            }
        }
        None
    }

    /// Remove application `app_id`, if registered.
    pub fn unregister_app(&mut self, app_id: u32)
        requires
            old(self)@.wf(),
        ensures
            final(self)@.wf(),
            unregister_outcome(old(self)@, final(self)@, app_id),
    {
        if let Some(pos) = self.find_app(app_id) {
            let ghost before = self@;
            proof {
                assert(is_first_match(before.slots, slot_app(app_id), pos as int));
                lemma_count_some_bounds(before.slots);
                lemma_count_some_update(before.slots, pos as int, None);
            }
            self.apps[pos] = None;
            self.app_count -= 1;
            assert(self@.slots == before.slots.update(pos as int, None));
        }
    }

    /// Application `app_id`, if registered.
    pub fn get_app(&self, app_id: u32) -> (r: Option<&Application>)
        ensures
            match r {
                Some(a) => self@.get(app_id) == Some(*a),
                None => self@.get(app_id) is None,
            },
    {
        match self.find_app(app_id) {
            Some(i) => match &self.apps[i] {
                Some(a) => Some(a),
                None => None,
            },
            None => None,
        }
    }

    /// Application `app_id` for change, if registered.
    pub fn get_app_mut(&mut self, app_id: u32) -> (r: Option<&mut Application>)
        ensures
            match first_match(old(self)@.slots, slot_app(app_id)) {
                Some(i) => r matches Some(a) && *a == old(self)@.slots[i]->0 && final(self)@ == (AppRegistryModel {
                    slots: old(self)@.slots.update(i, Some(*final(a))),
                    ..old(self)@
                }),
                None => r is None && final(self)@ == old(self)@,
            },
    {
        match self.find_app(app_id) {
            Some(i) => match &mut self.apps[i] {
                Some(a) => Some(a),
                None => None,
            },
            None => None,
        }
    }

    /// Mark application `app_id` running, if registered.
    pub fn launch_app(&mut self, app_id: u32)
        requires
            old(self)@.wf(),
        ensures
            final(self)@.wf(),
            final(self)@ == old(self)@.update_app(app_id, running()),
    {
        let ghost before = self@;
        if let Some(app) = self.get_app_mut(app_id) {
            app.run();
        }
        proof {
            lemma_update_keeps_wf(before, app_id, running());
        }
    }
}

/// Changing an application's fields other than its id keeps the registry
/// well formed.
proof fn lemma_update_keeps_wf(m: AppRegistryModel, id: u32, f: spec_fn(Application) -> Application)
    requires
        m.wf(),
        forall|a: Application| #[trigger] f(a).app_id == a.app_id,
    ensures
        m.update_app(id, f).wf(),
{
    match first_match(m.slots, slot_app(id)) {
        Some(i) => {
            assert(is_first_match(m.slots, slot_app(id), i));
            let n = m.update_app(id, f);
            lemma_count_some_update(m.slots, i, n.slots[i]);
            assert(f(m.slots[i]->0).app_id == m.slots[i]->0.app_id);
            assert forall|a: int, b: int|
                0 <= a < b < MAX_APPS && (#[trigger] n.slots[a]) is Some && (#[trigger] n.slots[b]) is Some implies n.slots[a]->0.app_id
                    != n.slots[b]->0.app_id by {
                assert(m.slots[a] is Some && m.slots[b] is Some);
            }
        },
        None => {},
    }
}

/// A registered application is found under its id, new and starting.
pub proof fn law_register_then_get(old: AppRegistryModel, new: AppRegistryModel, name: Seq<u8>, id: u32)
    requires
        old.wf(),
        register_outcome(old, new, name, Some(id)),
    ensures
        new.get(id) matches Some(a) && is_new_app(a, id, name),
{
    let k = first_match(old.slots, slot_unused())->0;
    assert(is_first_match(old.slots, slot_unused(), k));
    assert forall|j: int| 0 <= j < k implies !slot_app(id)(#[trigger] new.slots[j]) by {
        assert(new.slots[j] == old.slots[j]);
    }
    assert(is_first_match(new.slots, slot_app(id), k));
    lemma_first_match_is(new.slots, slot_app(id), k);
}

/// A closed application is no longer found.
pub proof fn law_unregister_then_get(old: AppRegistryModel, new: AppRegistryModel, id: u32)
    requires
        old.wf(),
        unregister_outcome(old, new, id),
    ensures
        new.get(id) is None,
{
    match first_match(old.slots, slot_app(id)) {
        Some(i) => {
            assert(is_first_match(old.slots, slot_app(id), i));
            assert forall|j: int| 0 <= j < MAX_APPS implies !slot_app(id)(#[trigger] new.slots[j]) by {
                if j != i && new.slots[j] is Some && new.slots[j]->0.app_id == id {
                    if j < i {
                        assert(slot_app(id)(old.slots[j]));
                    } else {
                        assert(old.slots[i]->0.app_id != old.slots[j]->0.app_id);
                    }
                }
            }
            lemma_first_match_none(new.slots, slot_app(id));
        },
        None => {},
    }
}

/// Nothing to set up: the registry starts empty.
pub fn init() {
}

/// Register an application; see `AppRegistry::register_app`.
pub fn register_app(reg: &mut AppRegistry, name: &str) -> (r: Option<u32>)
    requires
        old(reg)@.wf(),
        old(reg)@.count < MAX_APPS ==> old(reg)@.next_id < u32::MAX,
    ensures
        final(reg)@.wf(),
        register_outcome(old(reg)@, final(reg)@, name.spec_bytes(), r),
{
    reg.register_app(name)
}

/// Mark an application running.
pub fn launch_app(reg: &mut AppRegistry, app_id: u32)
    requires
        old(reg)@.wf(),
    ensures
        final(reg)@.wf(),
        final(reg)@ == old(reg)@.update_app(app_id, running()),
{
    reg.launch_app(app_id)
}

/// The state of application `app_id`, if registered.
pub fn get_app_state(reg: &AppRegistry, app_id: u32) -> (r: Option<AppState>)
    ensures
        r == match reg@.get(app_id) {
            Some(a) => Some(a.state),
            None => None::<AppState>,
        },
{
    match reg.get_app(app_id) {
        Some(a) => Some(a.state),
        None => None,
    }
}

/// Record `window_id` as the main window of application `app_id`.
pub fn set_app_window(reg: &mut AppRegistry, app_id: u32, window_id: WindowId)
    requires
        old(reg)@.wf(),
    ensures
        final(reg)@.wf(),
        final(reg)@ == old(reg)@.update_app(app_id, with_window(window_id)),
{
    let ghost before = reg@;
    if let Some(app) = reg.get_app_mut(app_id) {
        app.main_window = Some(window_id);
    }
    proof {
        lemma_update_keeps_wf(before, app_id, with_window(window_id));
    }
}

/// Remove application `app_id`.
pub fn close_app(reg: &mut AppRegistry, app_id: u32)
    requires
        old(reg)@.wf(),
    ensures
        final(reg)@.wf(),
        unregister_outcome(old(reg)@, final(reg)@, app_id),
{
    reg.unregister_app(app_id)
}

} // verus!
