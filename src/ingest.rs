use vstd::prelude::*;

verus! {

/// First reconnect delay, in seconds, and the delay after a successful subscribe.
pub const BACKOFF_FLOOR_SECONDS: u64 = 1;

/// Longest reconnect delay, in seconds.
pub const BACKOFF_CAP_SECONDS: u64 = 30;

/// Period, in seconds, of the keep-alive re-subscribe while connected.
pub const KEEPALIVE_SECONDS: u64 = 20;

/// Health of the ingestor, as served to status queries.
pub struct IngestorStatus {
    pub connected: bool,
    pub reconnect_count: u64,
    pub messages_processed: u64,
    pub buses_written: u64,
    pub decode_failures: u64,
    pub redis_write_failures: u64,
    pub last_message_unix_ms: Option<i64>,
    pub last_error: Option<String>,
}

impl IngestorStatus {
    /// The status at process start: disconnected, every counter zero.
    pub fn new() -> (r: Self)
        ensures
            !r.connected,
            r.reconnect_count == 0,
            r.messages_processed == 0,
            r.buses_written == 0,
            r.decode_failures == 0,
            r.redis_write_failures == 0,
            r.last_message_unix_ms is None,
            r.last_error is None,
    {
        IngestorStatus {
            connected: false,
            reconnect_count: 0,
            messages_processed: 0,
            buses_written: 0,
            decode_failures: 0,
            redis_write_failures: 0,
            last_message_unix_ms: None,
            last_error: None,
        }
    }

    /// Counts one inbound frame received at `now_ms`, of whose payloads
    /// `decode_failures` could not be decoded.
    pub fn record_frame(&mut self, now_ms: i64, decode_failures: u64)
        ensures
            final(self).messages_processed == old(self).messages_processed.saturating_add(1),
            final(self).decode_failures == old(self).decode_failures.saturating_add(decode_failures),
            final(self).last_message_unix_ms == Some(now_ms),
            final(self).connected == old(self).connected,
            final(self).reconnect_count == old(self).reconnect_count,
            final(self).buses_written == old(self).buses_written,
            final(self).redis_write_failures == old(self).redis_write_failures,
            final(self).last_error == old(self).last_error,
    {
        self.messages_processed = self.messages_processed.saturating_add(1);
        self.decode_failures = self.decode_failures.saturating_add(decode_failures);
        self.last_message_unix_ms = Some(now_ms);
    }

    /// Counts a batch of `written` positions stored in the cache; clears the last error.
    pub fn record_write(&mut self, written: u64)
        ensures
            final(self).buses_written == old(self).buses_written.saturating_add(written),
            final(self).last_error is None,
            final(self).connected == old(self).connected,
            final(self).reconnect_count == old(self).reconnect_count,
            final(self).messages_processed == old(self).messages_processed,
            final(self).decode_failures == old(self).decode_failures,
            final(self).redis_write_failures == old(self).redis_write_failures,
            final(self).last_message_unix_ms == old(self).last_message_unix_ms,
    {
        self.buses_written = self.buses_written.saturating_add(written);
        self.last_error = None;
    }

    /// Counts a batch the cache refused, keeping the reason.
    pub fn record_write_failure(&mut self, message: String)
        ensures
            final(self).redis_write_failures == old(self).redis_write_failures.saturating_add(1),
            final(self).last_error == Some(message),
            final(self).connected == old(self).connected,
            final(self).reconnect_count == old(self).reconnect_count,
            final(self).messages_processed == old(self).messages_processed,
            final(self).buses_written == old(self).buses_written,
            final(self).decode_failures == old(self).decode_failures,
            final(self).last_message_unix_ms == old(self).last_message_unix_ms,
    {
        self.redis_write_failures = self.redis_write_failures.saturating_add(1);
        self.last_error = Some(message);
    }

    /// Marks the feed lost: not connected, one more reconnect, the reason kept.
    pub fn record_connection_error(&mut self, message: String)
        ensures
            !final(self).connected,
            final(self).reconnect_count == old(self).reconnect_count.saturating_add(1),
            final(self).last_error == Some(message),
            final(self).messages_processed == old(self).messages_processed,
            final(self).buses_written == old(self).buses_written,
            final(self).decode_failures == old(self).decode_failures,
            final(self).redis_write_failures == old(self).redis_write_failures,
            final(self).last_message_unix_ms == old(self).last_message_unix_ms,
    {
        self.connected = false;
        self.reconnect_count = self.reconnect_count.saturating_add(1);
        self.last_error = Some(message);
    }
}

/// Where the upstream connection stands.
#[derive(Clone, Copy, PartialEq, Eq, Debug)]
pub enum ConnectionPhase {
    /// Waiting out a backoff delay (or not yet started).
    Disconnected,
    /// Opening the connection and sending the first subscribe.
    Connecting,
    /// Subscribed; frames flow and the keep-alive timer runs.
    Connected,
}

/// What happened to the connection.
pub enum IngestorEvent {
    /// The process started, or a backoff delay ran out.
    Retry,
    /// The connection opened.
    Opened,
    /// The subscribe request went out.
    Subscribed,
    /// The keep-alive period ran out.
    KeepaliveDue,
    /// Opening, sending or the session itself failed, or the peer disconnected.
    Failed(String),
}

/// What the driver of the connection must do next.
#[derive(Clone, Copy, PartialEq, Eq, Debug)]
pub enum IngestorAction {
    /// Open the upstream connection.
    Open,
    /// Send the fleet-wide subscribe request.
    SendSubscribe,
    /// Wait for frames; re-subscribe after the keep-alive period.
    Listen(u64),
    /// Close what is left of the connection and wait this many seconds.
    Sleep(u64),
    /// Nothing to do.
    Idle,
}

/// The reconnect state machine of the feed ingestor, with its status record.
pub struct Ingestor {
    pub phase: ConnectionPhase,
    pub backoff_seconds: u64,
    pub status: IngestorStatus,
}

/// The backoff after one more consecutive failure: doubled, capped.
pub open spec fn next_backoff(b: u64) -> u64 {
    if 2 * b > BACKOFF_CAP_SECONDS {
        BACKOFF_CAP_SECONDS
    } else {
        (2 * b) as u64
    }
}

impl Ingestor {
    pub open spec fn wf(&self) -> bool {
        &&& BACKOFF_FLOOR_SECONDS <= self.backoff_seconds <= BACKOFF_CAP_SECONDS
        &&& self.status.connected == (self.phase == ConnectionPhase::Connected)
    }

    /// A fresh ingestor: disconnected, backoff at its floor, zero counters.
    pub fn new() -> (r: Self)
        ensures
            r.wf(),
            r.phase == ConnectionPhase::Disconnected,
            r.backoff_seconds == BACKOFF_FLOOR_SECONDS,
            r.status.reconnect_count == 0,
    {
        Ingestor {
            phase: ConnectionPhase::Disconnected,
            backoff_seconds: BACKOFF_FLOOR_SECONDS,
            status: IngestorStatus::new(),
        }
    }

    /// Takes one event and says what to do next.
    ///
    /// A retry from `Disconnected` opens the connection; once open the
    /// subscribe is sent; once sent the ingestor is `Connected`, the backoff
    /// is back at its floor and it listens, re-subscribing on each
    /// keep-alive. Any failure while connecting or connected drops it to
    /// `Disconnected`, counts a reconnect, and sleeps the current backoff,
    /// which then doubles up to its cap. Any other event changes nothing.
    pub fn step(&mut self, event: IngestorEvent) -> (r: IngestorAction)
        requires
            old(self).wf(),
        ensures
            final(self).wf(),
            match (old(self).phase, event) {
                (ConnectionPhase::Disconnected, IngestorEvent::Retry) => {
                    &&& r == IngestorAction::Open
                    &&& final(self).phase == ConnectionPhase::Connecting
                    &&& final(self).backoff_seconds == old(self).backoff_seconds
                },
                (ConnectionPhase::Connecting, IngestorEvent::Opened) => {
                    &&& r == IngestorAction::SendSubscribe
                    &&& final(self).phase == ConnectionPhase::Connecting
                    &&& final(self).backoff_seconds == old(self).backoff_seconds
                },
                (ConnectionPhase::Connecting, IngestorEvent::Subscribed) => {
                    &&& r == IngestorAction::Listen(KEEPALIVE_SECONDS)
                    &&& final(self).phase == ConnectionPhase::Connected
                    &&& final(self).backoff_seconds == BACKOFF_FLOOR_SECONDS
                    &&& final(self).status.last_error is None
                    &&& final(self).status.reconnect_count == old(self).status.reconnect_count
                },
                (ConnectionPhase::Connected, IngestorEvent::KeepaliveDue) => {
                    &&& r == IngestorAction::SendSubscribe
                    &&& final(self).phase == ConnectionPhase::Connected
                    &&& final(self).backoff_seconds == old(self).backoff_seconds
                },
                (ConnectionPhase::Connected, IngestorEvent::Subscribed) => {
                    &&& r == IngestorAction::Listen(KEEPALIVE_SECONDS)
                    &&& final(self).phase == ConnectionPhase::Connected
                    &&& final(self).backoff_seconds == old(self).backoff_seconds
                },
                (ConnectionPhase::Disconnected, IngestorEvent::Failed(_)) => {
                    &&& r == IngestorAction::Idle
                    &&& final(self).phase == ConnectionPhase::Disconnected
                    &&& final(self).backoff_seconds == old(self).backoff_seconds
                    &&& final(self).status.reconnect_count == old(self).status.reconnect_count
                },
                (_, IngestorEvent::Failed(msg)) => {
                    &&& r == IngestorAction::Sleep(old(self).backoff_seconds)
                    &&& final(self).phase == ConnectionPhase::Disconnected
                    &&& final(self).backoff_seconds == next_backoff(old(self).backoff_seconds)
                    &&& final(self).status.last_error == Some(msg)
                    &&& final(self).status.reconnect_count == old(
                        self,
                    ).status.reconnect_count.saturating_add(1)
                },
                _ => {
                    &&& r == IngestorAction::Idle
                    &&& final(self).phase == old(self).phase
                    &&& final(self).backoff_seconds == old(self).backoff_seconds
                },
            },
            final(self).status.messages_processed == old(self).status.messages_processed,
            final(self).status.buses_written == old(self).status.buses_written,
            final(self).status.decode_failures == old(self).status.decode_failures,
            final(self).status.redis_write_failures == old(self).status.redis_write_failures,
    {
        match (self.phase, event) {
            (ConnectionPhase::Disconnected, IngestorEvent::Retry) => {
                self.phase = ConnectionPhase::Connecting;
                IngestorAction::Open
            },
            (ConnectionPhase::Connecting, IngestorEvent::Opened) => IngestorAction::SendSubscribe,
            (ConnectionPhase::Connecting, IngestorEvent::Subscribed) => {
                self.phase = ConnectionPhase::Connected;
                self.backoff_seconds = BACKOFF_FLOOR_SECONDS;
                self.status.connected = true;
                self.status.last_error = None;
                IngestorAction::Listen(KEEPALIVE_SECONDS)
            },
            (ConnectionPhase::Connected, IngestorEvent::KeepaliveDue) => IngestorAction::SendSubscribe,
            (ConnectionPhase::Connected, IngestorEvent::Subscribed) => IngestorAction::Listen(
                KEEPALIVE_SECONDS,
            ),
            (ConnectionPhase::Disconnected, IngestorEvent::Failed(_)) => IngestorAction::Idle,
            (_, IngestorEvent::Failed(msg)) => {
                let delay = self.backoff_seconds;
                self.phase = ConnectionPhase::Disconnected;
                self.status.record_connection_error(msg);
                self.backoff_seconds = if 2 * delay > BACKOFF_CAP_SECONDS {
                    BACKOFF_CAP_SECONDS
                } else {
                    2 * delay
                };
                IngestorAction::Sleep(delay)
            },
            _ => IngestorAction::Idle,
        }
    }
}

} // verus!
