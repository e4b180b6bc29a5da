//! Concentrated-liquidity market maker core: wide-integer arithmetic, tick and
//! price conversion, tick bitmap and registry, position accounting and the
//! pool state machine that composes them.

pub mod num256;
pub mod full_math;
pub mod fixed_point_96;
pub mod fixed_point_128;
pub mod bit_math;
pub mod int256;
pub mod num160;
pub mod sqrt_price_math;
pub mod num24;
pub mod swap_math;
pub mod liquidity_math;
pub mod position;
pub mod num56;
pub mod tick;
pub mod tick_math;
pub mod tick_bitmap;
pub mod tick_order;
pub mod pool;
pub mod pool_swap;
pub mod utils;
pub mod manager;
pub mod lock;
