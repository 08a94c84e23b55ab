//! A circuit breaker: after enough consecutive failures it opens and
//! refuses work until a timeout has passed, then lets one attempt through.
use vstd::prelude::*;

verus! {

/// The state of a circuit breaker.
#[derive(Debug, Clone, Copy, PartialEq, Eq, Structural)]
pub enum CircuitState {
    Closed,
    Open,
    HalfOpen,
}

/// A circuit breaker over plain times in milliseconds.
#[derive(Debug)]
pub struct CircuitBreaker {
    state: CircuitState,
    failure_count: u32,
    failure_threshold: u32,
    timeout_ms: u64,
    opened_at_ms: Option<u64>,
}

/// The state of a [`CircuitBreaker`].
pub struct BreakerView {
    pub state: CircuitState,
    pub failure_count: u32,
    pub failure_threshold: u32,
    pub timeout_ms: u64,
    pub opened_at_ms: Option<u64>,
}

impl View for CircuitBreaker {
    type V = BreakerView;

    closed spec fn view(&self) -> BreakerView {
        BreakerView {
            state: self.state,
            failure_count: self.failure_count,
            failure_threshold: self.failure_threshold,
            timeout_ms: self.timeout_ms,
            opened_at_ms: self.opened_at_ms,
        }
    }
}

impl CircuitBreaker {
    /// A closed breaker that opens after `failure_threshold` consecutive
    /// failures and stays open for `timeout_ms`.
    pub fn new(failure_threshold: u32, timeout_ms: u64) -> (b: Self)
        ensures
            b@ == (BreakerView {
                state: CircuitState::Closed,
                failure_count: 0,
                failure_threshold,
                timeout_ms,
                opened_at_ms: None,
            }),
    {
        CircuitBreaker { state: CircuitState::Closed, failure_count: 0, failure_threshold, timeout_ms, opened_at_ms: None }
    }

    /// Whether work may go ahead at `now_ms`: always when closed or half
    /// open; when open, once the timeout has passed since it opened, and
    /// then the breaker becomes half open.
    pub fn can_execute(&mut self, now_ms: u64) -> (r: bool)
        ensures
            old(self)@.state == CircuitState::Closed ==> r && final(self)@ == old(self)@,
            old(self)@.state == CircuitState::HalfOpen ==> r && final(self)@ == old(self)@,
            old(self)@.state == CircuitState::Open ==> match old(self)@.opened_at_ms {
                Some(t) => if now_ms >= t && now_ms - t >= old(self)@.timeout_ms {
                    r && final(self)@ == (BreakerView { state: CircuitState::HalfOpen, ..old(self)@ })
                } else {
                    !r && final(self)@ == old(self)@
                },
                None => !r && final(self)@ == old(self)@,
            },
    {
        match self.state {
            CircuitState::Closed => true,
            CircuitState::Open => match self.opened_at_ms {
                Some(t) => {
                    if now_ms >= t && now_ms - t >= self.timeout_ms {
                        self.state = CircuitState::HalfOpen;
                        true
                    } else {
                        false
                    }
                },
                None => false,
            },
            CircuitState::HalfOpen => true,
        }
    }

    /// A success: the failure count is reset and the breaker closes.
    pub fn record_success(&mut self)
        ensures
            final(self)@ == (BreakerView {
                state: CircuitState::Closed,
                failure_count: 0,
                opened_at_ms: if old(self)@.state == CircuitState::Closed { old(self)@.opened_at_ms } else { None },
                ..old(self)@
            }),
    {
        self.failure_count = 0;
        if self.state != CircuitState::Closed {
            self.state = CircuitState::Closed;
            self.opened_at_ms = None;
        }
    }

    /// A failure at `now_ms`: counted (wrapping as the atomic counter
    /// does), and once the count reaches the threshold a closed or half
    /// open breaker opens.
    pub fn record_failure(&mut self, now_ms: u64)
        ensures
            final(self)@.failure_count == (if old(self)@.failure_count == u32::MAX { 0 } else { (old(self)@.failure_count + 1) as u32 }),
            final(self)@.failure_threshold == old(self)@.failure_threshold,
            final(self)@.timeout_ms == old(self)@.timeout_ms,
            ({
                let count = if old(self)@.failure_count == u32::MAX { 0 } else { (old(self)@.failure_count + 1) as u32 };
                if count >= old(self)@.failure_threshold && old(self)@.state != CircuitState::Open {
                    final(self)@.state == CircuitState::Open && final(self)@.opened_at_ms == Some(now_ms)
                } else {
                    final(self)@.state == old(self)@.state && final(self)@.opened_at_ms == old(self)@.opened_at_ms
                }
            }),
    {
        let count = self.failure_count.wrapping_add(1);
        self.failure_count = count;
        if count >= self.failure_threshold {
            if self.state == CircuitState::Closed || self.state == CircuitState::HalfOpen {
                self.state = CircuitState::Open;
                self.opened_at_ms = Some(now_ms);
            }
        }
    }

    /// The current state.
    pub fn state(&self) -> (r: CircuitState)
        ensures
            r == self@.state,
    {
        self.state
    }
}

} // verus!
