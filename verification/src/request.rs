//! The API request that assigns a host PCI device to the microVM.

use vstd::prelude::*;

use crate::config::VfioDeviceConfig;

verus! {

/// The status that a rejected request is answered with.
#[derive(Debug, Clone, Copy, PartialEq, Eq, Structural)]
pub enum StatusCode {
    /// The request is not well formed.
    BadRequest,
}

/// Why a request is rejected.
#[derive(Debug, PartialEq, Eq)]
pub enum RequestError {
    /// The path of the request names no device.
    EmptyID,
    /// The path of the request names a device by an id that is not allowed, with the message of
    /// the failure.
    InvalidID(String),
    /// The body of the request is not a device config, with the message of the failure.
    SerdeJson(String),
    /// Any other reason, with its message.
    Generic(StatusCode, String),
}

/// What an accepted request asks of the VMM.
#[derive(Debug, PartialEq, Eq)]
pub enum VmmAction {
    /// Assign a host PCI device.
    InsertVfioDevice(VfioDeviceConfig),
}

/// How often devices were put.
#[derive(Debug, Clone, Copy, PartialEq, Eq, Structural)]
pub struct PutVfioMetrics {
    /// Number of requests.
    pub vfio_count: u64,
    /// Number of requests that failed.
    pub vfio_fails: u64,
}

/// The message of a request whose path and body do not name the same device.
pub open spec fn mismatch_message() -> Seq<char> {
    "The id from the path does not match the id from the body!"@
}

/// `n` plus one, starting again at zero after the largest number.
pub open spec fn counted(n: u64) -> u64 {
    if n < u64::MAX {
        (n + 1) as u64
    } else {
        0
    }
}

/// Whether a request whose path and body were read like this can be answered with `action`, and
/// leave the numbers of requests `after`.
pub open spec fn put_outcome(
    id_from_path: Option<Result<String, RequestError>>,
    body: Result<VfioDeviceConfig, RequestError>,
    before: PutVfioMetrics,
    action: Result<VmmAction, RequestError>,
    after: PutVfioMetrics,
) -> bool {
    let answer = match id_from_path {
        None => action == Err::<VmmAction, RequestError>(RequestError::EmptyID),
        Some(Err(error)) => action == Err::<VmmAction, RequestError>(error),
        Some(Ok(id)) => match body {
            Err(error) => action == Err::<VmmAction, RequestError>(error),
            Ok(config) => if id@ == config.id@ {
                action == Ok::<VmmAction, RequestError>(VmmAction::InsertVfioDevice(config))
            } else {
                action matches Err(RequestError::Generic(status, message)) && status
                    == StatusCode::BadRequest && message@ == mismatch_message()
            },
        },
    };
    &&& answer
    &&& after.vfio_count == counted(before.vfio_count)
    &&& after.vfio_fails == if action is Err && !(id_from_path matches Some(Err(_))) {
        counted(before.vfio_fails)
    } else {
        before.vfio_fails
    }
}

/// A request is accepted exactly where its path names an allowed id and its body holds a config with
/// that id; what is asked for is then that config. Every request counts once, and once more as
/// failed where it is rejected for anything but an id that is not allowed; the numbers start again
/// after 64 bits.
pub proof fn law_put_outcome(
    id_from_path: Option<Result<String, RequestError>>,
    body: Result<VfioDeviceConfig, RequestError>,
    before: PutVfioMetrics,
    action: Result<VmmAction, RequestError>,
    after: PutVfioMetrics,
)
    requires
        put_outcome(id_from_path, body, before, action, after),
    ensures
        action is Ok <==> {
            &&& id_from_path is Some
            &&& id_from_path->0 is Ok
            &&& body is Ok
            &&& id_from_path->0->Ok_0@ == body->Ok_0.id@
        },
        action is Ok ==> action->Ok_0 == VmmAction::InsertVfioDevice(body->Ok_0),
        action matches Err(error) ==> match error {
            RequestError::Generic(status, message) => id_from_path == Some(
                Err::<String, RequestError>(error),
            ) || body == Err::<VfioDeviceConfig, RequestError>(error) || (status
                == StatusCode::BadRequest && message@
                == "The id from the path does not match the id from the body!"@),
            RequestError::EmptyID => id_from_path is None || id_from_path == Some(
                Err::<String, RequestError>(error),
            ) || body == Err::<VfioDeviceConfig, RequestError>(error),
            _ => id_from_path == Some(Err::<String, RequestError>(error)) || body == Err::<
                VfioDeviceConfig,
                RequestError,
            >(error),
        },
        id_from_path is None ==> action == Err::<VmmAction, RequestError>(RequestError::EmptyID),
        after.vfio_count as int == (before.vfio_count + 1) % 0x1_0000_0000_0000_0000,
        after.vfio_fails as int == (before.vfio_fails + if action is Err && !(
        id_from_path is Some && id_from_path->0 is Err) {
            1int
        } else {
            0int
        }) % 0x1_0000_0000_0000_0000,
{
}

/// Adds one to a counter, which starts again at zero after the largest number.
fn count(n: u64) -> (next: u64)
    ensures
        next == counted(n),
{
    if n < u64::MAX {
        n + 1
    } else {
        0
    }
}

/// Parses the request that puts a device.
///
/// `id_from_path` is the id that the path of the request names, if it names one: the id itself
/// where it is allowed, or why it is not. `body` is the config that the body of the request holds,
/// or why it holds none. The request is accepted where both name the same device.
pub fn parse_put_vfio(
    id_from_path: Option<Result<String, RequestError>>,
    body: Result<VfioDeviceConfig, RequestError>,
    metrics: &mut PutVfioMetrics,
) -> (action: Result<VmmAction, RequestError>)
    ensures
        put_outcome(id_from_path, body, *old(metrics), action, *final(metrics)),
        match id_from_path {
            None => action == Err::<VmmAction, RequestError>(RequestError::EmptyID),
            Some(Err(error)) => action == Err::<VmmAction, RequestError>(error),
            Some(Ok(id)) => match body {
                Err(error) => action == Err::<VmmAction, RequestError>(error),
                Ok(config) => if id@ == config.id@ {
                    action == Ok::<VmmAction, RequestError>(VmmAction::InsertVfioDevice(config))
                } else {
                    action matches Err(RequestError::Generic(status, message)) && status
                        == StatusCode::BadRequest && message@ == mismatch_message()
                },
            },
        },
        final(metrics).vfio_count == counted(old(metrics).vfio_count),
        final(metrics).vfio_fails == (if action is Err && !(id_from_path matches Some(Err(_))) {
            counted(old(metrics).vfio_fails)
        } else {
            old(metrics).vfio_fails
        }),
{
    metrics.vfio_count = count(metrics.vfio_count);
    let id = match id_from_path {
        Some(Ok(id)) => id,
        Some(Err(error)) => return Err(error),
        None => {
            metrics.vfio_fails = count(metrics.vfio_fails);
            return Err(RequestError::EmptyID);
        },
    };
    let device_cfg = match body {
        Ok(device_cfg) => device_cfg,
        Err(error) => {
            metrics.vfio_fails = count(metrics.vfio_fails);
            return Err(error);
        },
    };
    if id != device_cfg.id {
        metrics.vfio_fails = count(metrics.vfio_fails);
        return Err(
            RequestError::Generic(
                StatusCode::BadRequest,
                "The id from the path does not match the id from the body!".to_string(),
            ),
        );
    }
    Ok(VmmAction::InsertVfioDevice(device_cfg))
}

} // verus!
