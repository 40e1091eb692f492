//! What a user may set of a send, and the configuration that it makes.
use vstd::prelude::*;

use crate::protocol::{
    chunk_size_refusal, validate_chunk_size, ErrorKind, ProtocolVersion, SendConfig, SendLimits,
    NANOS_PER_SECOND,
};
use crate::recv::{Failure, FailureView};
use crate::report::TransferReporter;
use crate::send::{delay_of, packets_per_second, send_delay};

verus! {

/// The options of a send. Spans of time are in nanoseconds.
#[derive(Clone, Copy, Debug)]
pub struct SendOptions {
    /// Bandwidth limit in KiB/s; zero is unlimited.
    pub bw: u64,
    pub chunk: u32,
    pub verify: bool,
    pub handshake_attempts: usize,
    pub retransmit_passes: usize,
    pub retransmit_timeout: u128,
    pub nack_timeout: u128,
}

impl SendOptions {
    /// The version that the options ask for.
    pub open spec fn version(self) -> ProtocolVersion {
        if self.verify {
            ProtocolVersion::V2
        } else {
            ProtocolVersion::V1
        }
    }

    /// The configuration of the send, unless the chunk size does not fit. The
    /// chunk size is looked at first, since the delay is divided by it.
    pub fn into_config<'a, R: TransferReporter + ?Sized>(self, reporter: &'a R) -> (result: Result<
        SendConfig<'a, R>,
        Failure,
    >)
        ensures
            match result {
                Ok(config) => {
                    &&& 1 <= self.chunk <= self.version().max_chunk_size()
                    &&& config.chunk_size == self.chunk
                    &&& config.version == self.version()
                    &&& config.delay == if self.bw == 0 {
                        None::<u128>
                    } else {
                        Some((NANOS_PER_SECOND as int / packets_per_second(self.bw, self.chunk)) as u128)
                    }
                    &&& match config.delay {
                    Some(nanos) => delay_of(self.bw, self.chunk) == Some(nanos as int),
                    None => delay_of(self.bw, self.chunk) is None,
                }
                &&& config.limits == (SendLimits {
                        handshake_attempts: self.handshake_attempts,
                        retransmit_passes: self.retransmit_passes,
                        retransmit_timeout: self.retransmit_timeout,
                        nack_collection_timeout: self.nack_timeout,
                    })
                    &&& config.reporter == reporter
                },
                Err(failure) => {
                    &&& !(1 <= self.chunk <= self.version().max_chunk_size())
                    &&& failure@ == (FailureView {
                        kind: ErrorKind::InvalidInput,
                        reason: chunk_size_refusal(self.version()),
                    })
                },
            },
    {
        let version = ProtocolVersion::for_verify(self.verify);
        if let Err(reason) = validate_chunk_size(self.chunk, version) {
            return Err(Failure { kind: ErrorKind::InvalidInput, reason });
        }
        Ok(
            SendConfig {
                chunk_size: self.chunk,
                delay: send_delay(self.bw, self.chunk),
                version,
                reporter,
                limits: SendLimits {
                    handshake_attempts: self.handshake_attempts,
                    retransmit_passes: self.retransmit_passes,
                    retransmit_timeout: self.retransmit_timeout,
                    nack_collection_timeout: self.nack_timeout,
                },
            },
        )
    }
}

} // verus!
