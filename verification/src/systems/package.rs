//! The resources the engine starts with.
use vstd::prelude::*;
use crate::inputs::InputsController;
use crate::renderer::hot_reload_timer;
use crate::time::{fresh_timer, TimerType, TimerView, Timers};
use crate::world::{AssetManager, FocusManager, GlobalStorage, Resources, Window};

verus! {

/// How long one cycle of the hot-reloading timer lasts: five seconds.
pub const HOT_RELOAD_PERIOD_NANOS: u64 = 5_000_000_000u64;

/// The resources of a game before its first frame, for the window `window`: no
/// asset, no input, no focus, no flag, and, when hot reloading is enabled, the
/// cyclic timer that paces it.
pub fn prepare_resources(window: Window, hot_reload: bool) -> (r: Resources)
    ensures
        r.assets.materials@.len() == 0,
        r.assets.fonts@.len() == 0,
        r.inputs.pressed@.len() == 0,
        r.inputs.pressed_events@.len() == 0,
        r.focus_manager.current is None,
        r.window == window,
        r.global_storage.flags@.len() == 0,
        hot_reload ==> r.timers@ == seq![fresh_timer(hot_reload_timer(), TimerType::Cyclic, HOT_RELOAD_PERIOD_NANOS)],
        !hot_reload ==> r.timers@ == Seq::<TimerView>::empty(),
{
    let mut timers = Timers::new();
    if hot_reload {
        let _created = timers.add_timer("hot-reload-timer", TimerType::Cyclic, HOT_RELOAD_PERIOD_NANOS);
        proof {
            reveal_strlit("hot-reload-timer");
        }
        assert(timers@ =~= seq![fresh_timer(hot_reload_timer(), TimerType::Cyclic, HOT_RELOAD_PERIOD_NANOS)]);
    }
    Resources {
        assets: AssetManager::new(),
        inputs: InputsController::new(),
        focus_manager: FocusManager { current: None },
        window,
        global_storage: GlobalStorage::new(),
        timers,
    }
}

} // verus!
