pub mod builtin;
pub mod deque;
pub mod heapq;
pub mod iter;
pub mod list;
pub mod string;
pub mod truth;
pub mod typed;
pub mod number;
