//! Core logic for a USB-gadget selector running on a Linux device in gadget
//! mode: a model of the selectable gadget roles (mass storage, serial,
//! ethernet), a loader for the declarative configuration file that lists
//! them, and an activation planner that turns a selected gadget into the
//! argument list for the external kernel-module activation command.

pub mod gadget;
pub mod invoker;
pub mod loader;
pub mod parse;
pub mod render;
