//! Settings of a runtime.

use vstd::prelude::*;

verus! {

/// How a driver learns of completions.
#[derive(Debug, Clone, Copy, PartialEq, Eq, Structural)]
pub enum IoMode {
    /// By system calls that wait.
    Interrupt,
    /// By polling.
    Polling,
}

/// Settings of the io_uring driver.
#[derive(Debug, Clone, Copy, PartialEq, Eq, Structural)]
pub struct UringConfig {
    pub mode: IoMode,
    pub entries: u32,
    pub sqpoll_idle_ms: u32,
}

impl Default for UringConfig {
    fn default() -> (config: Self)
        ensures
            config == (UringConfig { mode: IoMode::Interrupt, entries: 1024, sqpoll_idle_ms: 2000 }),
    {
        UringConfig { mode: IoMode::Interrupt, entries: 1024, sqpoll_idle_ms: 2000 }
    }
}

/// Settings of the completion port driver.
#[derive(Debug, Clone, Copy, PartialEq, Eq, Structural)]
pub struct IocpConfig {
    pub mode: IoMode,
    pub entries: u32,
}

impl Default for IocpConfig {
    fn default() -> (config: Self)
        ensures
            config == (IocpConfig { mode: IoMode::Interrupt, entries: 1024 }),
    {
        IocpConfig { mode: IoMode::Interrupt, entries: 1024 }
    }
}

/// Settings of a runtime.
#[derive(Debug, Clone, Copy, PartialEq, Eq, Structural)]
pub struct Config {
    pub uring: UringConfig,
    pub iocp: IocpConfig,
    pub worker_threads: Option<usize>,
    pub direct_io: bool,
}

impl Config {
    pub open spec fn defaults() -> Config {
        Config {
            uring: UringConfig { mode: IoMode::Interrupt, entries: 1024, sqpoll_idle_ms: 2000 },
            iocp: IocpConfig { mode: IoMode::Interrupt, entries: 1024 },
            worker_threads: None,
            direct_io: false,
        }
    }

    pub fn new() -> (config: Self)
        ensures
            config == Config::defaults(),
    {
        Config {
            uring: UringConfig::default(),
            iocp: IocpConfig::default(),
            worker_threads: None,
            direct_io: false,
        }
    }

    pub fn uring(self, uring: UringConfig) -> (config: Self)
        ensures
            config == (Config { uring, ..self }),
    {
        Config { uring, ..self }
    }

    pub fn iocp(self, iocp: IocpConfig) -> (config: Self)
        ensures
            config == (Config { iocp, ..self }),
    {
        Config { iocp, ..self }
    }

    pub fn worker_threads(self, worker_threads: usize) -> (config: Self)
        ensures
            config == (Config { worker_threads: Some(worker_threads), ..self }),
    {
        Config { worker_threads: Some(worker_threads), ..self }
    }

    pub fn direct_io(self, direct_io: bool) -> (config: Self)
        ensures
            config == (Config { direct_io, ..self }),
    {
        Config { direct_io, ..self }
    }
}

impl Default for Config {
    fn default() -> (config: Self)
        ensures
            config == Config::defaults(),
    {
        Config::new()
    }
}

} // verus!
