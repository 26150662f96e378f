//! The configuration and telemetry bridge: its endpoint rewriting, its
//! telemetry throttle, and its reaction to each event of a connection.
//!
//! The bridge keeps one socket open towards the backend. Configuration
//! updates arrive on it and are forwarded to the recorder; target samples
//! leave on it, at most five a second. Any failure ends the iteration and
//! the bridge reconnects after a fixed delay, without an attempt limit.

use crate::recorder::TargetSample;
use vstd::prelude::*;

verus! {

/// How long the bridge waits before it reconnects, in ms.
pub const RECONNECT_DELAY_MS: u64 = 2000;

/// The shortest spacing of two telemetry sends, in ms (5 Hz).
pub const TELEMETRY_INTERVAL_MS: i64 = 200;

/// The bytes of `https://`.
pub open spec fn lit_https() -> Seq<u8> {
    seq![0x68u8, 0x74u8, 0x74u8, 0x70u8, 0x73u8, 0x3Au8, 0x2Fu8, 0x2Fu8]
}

/// The bytes of `wss://`.
pub open spec fn lit_wss() -> Seq<u8> {
    seq![0x77u8, 0x73u8, 0x73u8, 0x3Au8, 0x2Fu8, 0x2Fu8]
}

/// The bytes of `http://`.
pub open spec fn lit_http() -> Seq<u8> {
    seq![0x68u8, 0x74u8, 0x74u8, 0x70u8, 0x3Au8, 0x2Fu8, 0x2Fu8]
}

/// The bytes of `ws://`.
pub open spec fn lit_ws() -> Seq<u8> {
    seq![0x77u8, 0x73u8, 0x3Au8, 0x2Fu8, 0x2Fu8]
}

/// The bytes of `/socket/websocket`.
pub open spec fn lit_socket_path() -> Seq<u8> {
    seq![0x2Fu8, 0x73u8, 0x6Fu8, 0x63u8, 0x6Bu8, 0x65u8, 0x74u8, 0x2Fu8, 0x77u8, 0x65u8, 0x62u8, 0x73u8, 0x6Fu8, 0x63u8, 0x6Bu8, 0x65u8, 0x74u8]
}

/// The socket endpoint for an API endpoint: `http(s)` becomes `ws(s)`,
/// and the socket path is appended.
pub open spec fn ws_url_of_spec(endpoint: Seq<u8>) -> Seq<u8> {
    let rewritten = if endpoint.len() >= 8 && endpoint.take(8) == lit_https() {
        lit_wss() + endpoint.skip(8)
    } else if endpoint.len() >= 7 && endpoint.take(7) == lit_http() {
        lit_ws() + endpoint.skip(7)
    } else {
        endpoint
    };
    rewritten + lit_socket_path()
}

/// Rewrites an API endpoint into its socket endpoint.
pub fn ws_url_of(endpoint: &[u8]) -> (out: Vec<u8>)
    ensures
        out@ == ws_url_of_spec(endpoint@),
{
    let mut out: Vec<u8> = Vec::new();
    let https: [u8; 8] = [0x68, 0x74, 0x74, 0x70, 0x73, 0x3A, 0x2F, 0x2F];
    let http: [u8; 7] = [0x68, 0x74, 0x74, 0x70, 0x3A, 0x2F, 0x2F];
    proof {
        assert(https@ =~= lit_https());
        assert(http@ =~= lit_http());
    }
    let is_https = endpoint.len() >= 8 && crate::evidence::bytes_eq(
        vstd::slice::slice_subrange(endpoint, 0, 8),
        https.as_slice(),
    );
    let is_http = !is_https && endpoint.len() >= 7 && crate::evidence::bytes_eq(
        vstd::slice::slice_subrange(endpoint, 0, 7),
        http.as_slice(),
    );
    if is_https {
        let scheme: [u8; 6] = [0x77, 0x73, 0x73, 0x3A, 0x2F, 0x2F];
        proof {
            assert(scheme@ =~= lit_wss());
        }
        crate::json::push_bytes(&mut out, scheme.as_slice());
        crate::json::push_bytes(
            &mut out,
            vstd::slice::slice_subrange(endpoint, 8, endpoint.len()),
        );
    } else if is_http {
        let scheme: [u8; 5] = [0x77, 0x73, 0x3A, 0x2F, 0x2F];
        proof {
            assert(scheme@ =~= lit_ws());
        }
        crate::json::push_bytes(&mut out, scheme.as_slice());
        crate::json::push_bytes(
            &mut out,
            vstd::slice::slice_subrange(endpoint, 7, endpoint.len()),
        );
    } else {
        crate::json::push_bytes(&mut out, endpoint);
    }
    let path: [u8; 17] = [
        0x2F, 0x73, 0x6F, 0x63, 0x6B, 0x65, 0x74, 0x2F, 0x77, 0x65, 0x62, 0x73, 0x6F, 0x63, 0x6B,
        0x65, 0x74,
    ];
    proof {
        assert(path@ =~= lit_socket_path());
    }
    crate::json::push_bytes(&mut out, path.as_slice());
    proof {
        assert(out@ =~= ws_url_of_spec(endpoint@));
    }
    out
}

/// What the open connection handed the bridge.
pub enum BridgeEvent {
    /// A target sample arrived on the broadcast bus at this time (ms).
    Sample(TargetSample, i64),
    /// The bus receiver fell behind and samples were lost.
    Lagged,
    /// The bus closed.
    Closed,
}

/// What the bridge does with it.
pub enum BridgeAction {
    /// Publish the sample as telemetry.
    SendTargetData,
    /// Too soon after the previous send: drop the sample.
    DropSample,
    /// Nothing to do; keep receiving.
    KeepGoing,
    /// End this connection's iteration; a reconnect follows.
    EndIteration,
}

/// When the bridge last published telemetry.
pub struct BridgeState {
    pub last_send_ms: i64,
}

/// One step of the connection loop: samples go out at most once per
/// interval and are otherwise dropped; a lagging bus is ignored; a closed
/// bus ends the iteration.
pub fn bridge_step(state: &mut BridgeState, ev: &BridgeEvent) -> (a: BridgeAction)
    ensures
        match *ev {
            BridgeEvent::Sample(_, now_ms) => if now_ms - old(state).last_send_ms
                >= TELEMETRY_INTERVAL_MS {
                a is SendTargetData && final(state).last_send_ms == now_ms
            } else {
                a is DropSample && final(state).last_send_ms == old(state).last_send_ms
            },
            BridgeEvent::Lagged => a is KeepGoing && final(state).last_send_ms == old(
                state,
            ).last_send_ms,
            BridgeEvent::Closed => a is EndIteration && final(state).last_send_ms == old(
                state,
            ).last_send_ms,
        },
{
    match ev {
        BridgeEvent::Sample(_, now_ms) => {
            if (*now_ms as i128) - (state.last_send_ms as i128) >= TELEMETRY_INTERVAL_MS as i128 {
                state.last_send_ms = *now_ms;
                BridgeAction::SendTargetData
            } else {
                BridgeAction::DropSample
            }
        },
        BridgeEvent::Lagged => BridgeAction::KeepGoing,
        BridgeEvent::Closed => BridgeAction::EndIteration,
    }
}

} // verus!
