//! Load balancing over a grid of weighted cells that are partitioned into
//! groups: the balance measure, the partition state with its local search
//! for an improving transfer, and the worker that carries transfers out.

pub mod balance;
pub mod grid;
pub mod weights;
pub mod map;
pub mod route;
pub mod player;
pub mod optimizer;
pub mod generate;
