//! A minimal real-time 3D renderer core built around a scene graph: a tree of
//! transformable nodes, each optionally bound to GPU-resident geometry,
//! traversed once per frame to compute world transforms and to collect draw
//! calls. Window and context creation, event capture, shader loading, mesh
//! parsing and GPU buffer upload are collaborators that live outside this
//! library; the library computes, the collaborators perform.

pub mod camera;
pub mod draw;
pub mod frame;
pub mod glmath;
pub mod input;
pub mod propagate;
pub mod scene;
