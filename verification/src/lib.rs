//! Workspace labelling for a tiling window manager.
//!
//! The library turns a snapshot of the window layout tree into rename
//! directives that give every numbered workspace a name built from its number
//! and from the labels of the applications it shows. It also holds the
//! decisions of the two long-running tasks around that computation: the
//! command actor that serialises every call to the window manager, and the
//! event watcher that starts a replan cycle on the events that matter.

pub mod actor;
pub mod label;
pub mod lookup;
pub mod order;
pub mod planner;
pub mod text;
pub mod tree;
pub mod watcher;

pub use actor::{
    actor_step, fault_kind, ActorAction, ActorEvent, ActorState, CallOutcome, FaultKind, IoFault,
    Request, StopCause, TransportError,
};
pub use label::get_workspace_name;
pub use lookup::Lookup;
pub use order::get_numbered_workspaces;
pub use planner::{get_workspace_rename_commands, plan_renames, rename_command, RenameDirective};
pub use text::{decimal_text, join_texts};
pub use tree::{
    get_leaf_content_nodes, get_nodes_of_type, get_workspace_nodes, InvalidTree, LayoutNode,
    NodeType, WindowProperties,
};
pub use watcher::{
    after_cycle, cycle_step, watcher_step, CycleAction, CycleEnd, CycleEvent, CycleState,
    StreamItem, WatchedEvent, WatcherAction, WatcherEnd, WindowChange, WorkspaceChange,
};
