//! An application-state and dependency-injection core driving a per-frame
//! callback pipeline.
//!
//! Callers register state values and callbacks; each callback declares, by
//! state token and by access mode, which pieces of application state it
//! needs.  Registration checks every signature against the aliasing rule —
//! one writer or many readers per token — and the application then runs its
//! setup chain once and its frame chain once per tick, in registration
//! order, through a dispatcher supplied by the driver.

mod app;
pub mod assets;
mod callback;
pub mod experimental;
pub mod graphics;
mod input;
mod store;
mod util;

pub use app::App;
pub use app::SetupEntry;
pub use app::derive_dispatcher_total;
pub use app::derive_preserves_state;
pub use app::dispatcher_total;
pub use app::frame_trace;
pub use app::insert_all;
pub use app::is_first_missing;
pub use app::lemma_derived_state_visible;
pub use app::lemma_frame_trace_compose;
pub use app::lemma_state_persists_across_frames;
pub use app::chained_states;
pub use app::lemma_frame_trace_repeat;
pub use app::missing_type_error;
pub use app::repeat_chain;
pub use app::params_present;
pub use app::preserves_state;
pub use app::setup_available;
pub use app::setup_satisfiable;
pub use app::setup_step;
pub use app::setup_trace;
pub use assets::Assets;
pub use assets::PendingTask;
pub use assets::ResourceHandle;
pub use assets::ResourceManager;
pub use assets::ResourceRef;
pub use assets::ResourceRefMut;
pub use assets::cache_lookup;
pub use assets::fs::ThreadedFileSystem;
pub use assets::handles_view;
pub use assets::has_loader_for;
pub use assets::loaders_view;
pub use assets::transmute_handle;
pub use callback::AppError;
pub use callback::Callback;
pub use callback::ParamDesc;
pub use callback::conflicting_pair;
pub use callback::illegal_signature_error;
pub use callback::illegal_signature_text;
pub use callback::is_first_conflict;
pub use callback::missing_type_text;
pub use callback::param_text;
pub use callback::signature_legal;
pub use callback::signature_text;
pub use experimental::FileSystem;
pub use experimental::FileTask;
pub use graphics::DrawBatch;
pub use graphics::DrawCommand;
pub use graphics::SpriteData;
pub use graphics::batch_draw_commands;
pub use graphics::batch_of;
pub use graphics::commands_indices_in_bounds;
pub use graphics::indices_before;
pub use graphics::verts_before;
pub use input::Input;
pub use input::KeyCode;
pub use input::convert_keycode;
pub use input::keycode_of;
pub use input::without_key;
pub use store::TypeMap;
pub use store::lemma_store_round_trip;
pub use util::is_chosen_cut;
pub use util::is_cut;
pub use util::short_type_name;
pub use input::EventAction;
pub use input::WindowEvent;
pub use input::added_once;
pub use input::handle_event;
