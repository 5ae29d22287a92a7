//! Wire protocols spoken with the agent.
pub mod assuan;
