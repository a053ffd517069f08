//! The server's configuration.
use vstd::prelude::*;

verus! {

#[derive(Debug, Clone)]
pub struct AppConfig {
    pub server: ServerConfig,
    pub tcp: TcpConfig,
    pub websocket: WebSocketConfig,
    pub timer: TimerConfig,
}

#[derive(Debug, Clone)]
pub struct ServerConfig {
    pub name: String,
    pub log_level: String,
}

#[derive(Debug, Clone)]
pub struct TcpConfig {
    pub enabled: bool,
    pub addr: String,
    pub max_connections: usize,
    pub read_buffer_size: usize,
    pub write_buffer_size: usize,
}

#[derive(Debug, Clone)]
pub struct WebSocketConfig {
    pub enabled: bool,
    pub addr: String,
    pub path: String,
    pub max_connections: usize,
}

#[derive(Debug, Clone)]
pub struct ClusterConfig {
    pub enabled: bool,
    pub addr: String,
}

#[derive(Debug, Clone)]
pub struct TimerConfig {
    pub tick_interval_ms: u64,
    pub max_timers: usize,
}

#[derive(Debug, Clone)]
pub struct PerformanceConfig {
    pub worker_threads: usize,
    pub max_blocking_threads: usize,
}

impl AppConfig {
    /// The configuration used when no file is given: server "shell-server"
    /// logging at "debug"; TCP on 0.0.0.0:9527 and WebSocket on
    /// 0.0.0.0:9528 at "/ws", both enabled and each allowing 10000
    /// connections; TCP buffers of 8192 bytes; a timer tick of 100 ms and at
    /// most 100000 timers.
    pub fn default_config() -> (c: AppConfig)
        ensures
            c.server.name@ == "shell-server"@,
            c.server.log_level@ == "debug"@,
            c.tcp.enabled,
            c.tcp.addr@ == "0.0.0.0:9527"@,
            c.tcp.max_connections == 10000,
            c.tcp.read_buffer_size == 8192,
            c.tcp.write_buffer_size == 8192,
            c.websocket.enabled,
            c.websocket.addr@ == "0.0.0.0:9528"@,
            c.websocket.path@ == "/ws"@,
            c.websocket.max_connections == 10000,
            c.timer.tick_interval_ms == 100,
            c.timer.max_timers == 100000,
    {
        AppConfig {
            server: ServerConfig {
                name: "shell-server".to_owned(),
                log_level: "debug".to_owned(),
            },
            tcp: TcpConfig {
                enabled: true,
                addr: "0.0.0.0:9527".to_owned(),
                max_connections: 10000,
                read_buffer_size: 8192,
                write_buffer_size: 8192,
            },
            websocket: WebSocketConfig {
                enabled: true,
                addr: "0.0.0.0:9528".to_owned(),
                path: "/ws".to_owned(),
                max_connections: 10000,
            },
            timer: TimerConfig { tick_interval_ms: 100, max_timers: 100000 },
        }
    }

    /// How many sessions the server allows: the TCP and the WebSocket limits
    /// together; `None` when the sum does not fit in a `usize`.
    pub fn session_limit(&self) -> (n: Option<usize>)
        ensures
            match n {
                Some(n) => n == self.tcp.max_connections + self.websocket.max_connections,
                None => self.tcp.max_connections + self.websocket.max_connections > usize::MAX,
            },
    {
        self.tcp.max_connections.checked_add(self.websocket.max_connections)
    }
}

} // verus!
