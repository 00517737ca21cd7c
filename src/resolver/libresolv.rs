//! Decisions of the SRV resolver backed by `libresolv`.
use vstd::prelude::*;
use vstd::string::StringSliceAdditionalSpecFns;

verus! {

/// The size of a DNS packet that the resolver asks for first (RFC 1035).
pub const NS_PACKETSZ: usize = 512;

/// The largest DNS message (RFC 1035).
pub const NS_MAXMSG: usize = 65535;

/// Errors reported by the resolver library, from its status and `h_errno`.
#[derive(Debug, PartialEq, Eq, Structural)]
pub enum ResolverError {
    /// Unknown host.
    HostNotFound,
    /// Hostname lookup failure.
    TryAgain,
    /// Unknown server error.
    NoRecovery,
    /// No address associated with name.
    NoData,
    /// Unexpected `h_errno`.
    Unexpected(i32),
}

/// Errors encountered by [`LibResolv`].
#[derive(Debug, PartialEq, Eq, Structural)]
pub enum LibResolvError {
    /// The SRV name holds a NUL byte at this position.
    InteriorNul(usize),
    /// SRV resolver errors.
    Resolver(ResolverError),
    /// Tried to parse non-SRV record as SRV.
    NotSrv,
    /// The data of a SRV record is shorter than its fixed fields.
    TruncatedRecord,
    /// DNS answer larger than allowed by RFC.
    AnswerTooLarge,
}

/// What a status of the resolver library means: success for a non-negative
/// status, else the error that `h_errno` names.
pub open spec fn status_result(status: i32, h_errno: i32) -> Result<(), ResolverError> {
    if status >= 0 || h_errno == 0 {
        Ok(())
    } else if h_errno == 1 {
        Err(ResolverError::HostNotFound)
    } else if h_errno == 2 {
        Err(ResolverError::TryAgain)
    } else if h_errno == 3 {
        Err(ResolverError::NoRecovery)
    } else if h_errno == 4 {
        Err(ResolverError::NoData)
    } else {
        Err(ResolverError::Unexpected(h_errno))
    }
}

/// Checks a status returned by the resolver library, reading `h_errno` of
/// the resolver state where the status reports a failure.
pub fn check(status: i32, h_errno: i32) -> (r: Result<(), ResolverError>)
    ensures
        r == status_result(status, h_errno),
{
    if status >= 0 {
        Ok(())
    } else {
        match h_errno {
            0 => Ok(()),
            1 => Err(ResolverError::HostNotFound),
            2 => Err(ResolverError::TryAgain),
            3 => Err(ResolverError::NoRecovery),
            4 => Err(ResolverError::NoData),
            err => Err(ResolverError::Unexpected(err)),
        }
    }
}

/// The first position of a NUL byte in `bytes`, from `from` on.
pub open spec fn nul_position_from(bytes: Seq<u8>, from: int) -> Option<int>
    decreases bytes.len() - from,
{
    if from < 0 || from >= bytes.len() {
        None
    } else if bytes[from] == 0 {
        Some(from)
    } else {
        nul_position_from(bytes, from + 1)
    }
}

/// Checks that a SRV name can be handed to the resolver library as a C
/// string: it may hold no NUL byte.
pub fn check_srv_name(srv: &str) -> (r: Result<(), LibResolvError>)
    ensures
        match nul_position_from(srv.spec_bytes(), 0) {
            Some(p) => r == Err::<(), LibResolvError>(LibResolvError::InteriorNul(p as usize)),
            None => r is Ok,
        },
{
    let bytes = srv.as_bytes();
    let mut i: usize = 0;
    while i < bytes.len()
        invariant
            i <= bytes@.len(),
            bytes@ == srv.spec_bytes(),
            nul_position_from(bytes@, 0) == nul_position_from(bytes@, i as int),
        decreases bytes@.len() - i,
    {
        if bytes[i] == 0 {
            return Err(LibResolvError::InteriorNul(i));
        }
        i = i + 1;
    }
    Ok(())
}

/// How a DNS answer of `answer_len` bytes relates to the buffer it was read into.
#[derive(Debug, PartialEq, Eq, Structural)]
pub enum AnswerFit {
    /// The answer fits in the buffer.
    Fits,
    /// The answer was cut; the query must be made again with a buffer of this size.
    Retry(usize),
}

/// Decides what to do with a DNS answer of `answer_len` bytes read into a
/// buffer of `buf_len` bytes: use it, retry with a buffer that holds it, or
/// give up where no DNS message may be that large.
pub fn fit_answer(answer_len: usize, buf_len: usize) -> (r: Result<AnswerFit, LibResolvError>)
    ensures
        answer_len <= buf_len ==> r == Ok::<AnswerFit, LibResolvError>(AnswerFit::Fits),
        buf_len < answer_len <= NS_MAXMSG ==> r == Ok::<AnswerFit, LibResolvError>(
            AnswerFit::Retry(answer_len),
        ),
        buf_len < answer_len && NS_MAXMSG < answer_len ==> r == Err::<AnswerFit, LibResolvError>(
            LibResolvError::AnswerTooLarge,
        ),
{
    if answer_len <= buf_len {
        Ok(AnswerFit::Fits)
    } else if answer_len <= NS_MAXMSG {
        Ok(AnswerFit::Retry(answer_len))
    } else {
        Err(LibResolvError::AnswerTooLarge)
    }
}

/// The fixed fields at the start of the data of a SRV record.
#[derive(Debug, PartialEq, Eq, Structural)]
pub struct SrvHeader {
    /// Record's priority.
    pub priority: u16,
    /// Record's weight.
    pub weight: u16,
    /// Record's port.
    pub port: u16,
}

/// A 16-bit integer in network byte order.
pub open spec fn be_u16(bytes: Seq<u8>, at: int) -> u16 {
    (bytes[at] * 256 + bytes[at + 1]) as u16
}

/// The record type of SRV records.
pub const NS_T_SRV: u32 = 33;

/// Reads the priority, weight and port of a SRV record from the start of its
/// data; the name of the target follows them.
pub fn parse_srv_header(record_type: u32, rdata: &[u8]) -> (r: Result<SrvHeader, LibResolvError>)
    ensures
        record_type != NS_T_SRV ==> r == Err::<SrvHeader, LibResolvError>(LibResolvError::NotSrv),
        record_type == NS_T_SRV && rdata@.len() < 6 ==> r == Err::<SrvHeader, LibResolvError>(
            LibResolvError::TruncatedRecord,
        ),
        record_type == NS_T_SRV && rdata@.len() >= 6 ==> r == Ok::<SrvHeader, LibResolvError>(
            SrvHeader {
                priority: be_u16(rdata@, 0),
                weight: be_u16(rdata@, 2),
                port: be_u16(rdata@, 4),
            },
        ),
{
    if record_type != NS_T_SRV {
        return Err(LibResolvError::NotSrv);
    }
    if rdata.len() < 6 {
        return Err(LibResolvError::TruncatedRecord);
    }
    let priority = rdata[0] as u16 * 256 + rdata[1] as u16;
    let weight = rdata[2] as u16 * 256 + rdata[3] as u16;
    let port = rdata[4] as u16 * 256 + rdata[5] as u16;
    Ok(SrvHeader { priority, weight, port })
}

/// `least` is the least of `ttls`, or 0 where there is none.
pub open spec fn is_least_ttl(ttls: Seq<u32>, least: u32) -> bool {
    if ttls.len() == 0 {
        least == 0
    } else {
        &&& exists|i: int| 0 <= i < ttls.len() && ttls[i] == least
        &&& forall|i: int| 0 <= i < ttls.len() ==> least <= #[trigger] ttls[i]
    }
}

/// The least of the time-to-live values (in seconds) of the records of an answer, 0 where there is none.
pub fn least_ttl(ttls: &[u32]) -> (r: u32)
    ensures
        is_least_ttl(ttls@, r),
{
    if ttls.len() == 0 {
        return 0;
    }
    let mut least = ttls[0];
    let mut i: usize = 1;
    while i < ttls.len()
        invariant
            1 <= i <= ttls@.len(),
            exists|k: int| 0 <= k < i && ttls@[k] == least,
            forall|k: int| 0 <= k < i ==> least <= #[trigger] ttls@[k],
        decreases ttls@.len() - i,
    {
        if ttls[i] < least {
            least = ttls[i];
        }
        i = i + 1;
    }
    least
}

/// The instant (in milliseconds) until which an answer received at
/// `response_time` is valid: its least time-to-live after it, so that the
/// cache never outlives the least fresh record it holds. Instants past the
/// largest one stand at the largest one.
pub fn answer_valid_until(response_time: u64, ttls: &[u32]) -> (r: u64)
    ensures
        exists|least: u32|
            is_least_ttl(ttls@, least) && r == if response_time + least * 1000 <= u64::MAX {
                response_time + least * 1000
            } else {
                u64::MAX as int
            },
{
    let least = least_ttl(ttls);
    let span = least as u64 * 1000;
    if response_time <= u64::MAX - span {
        response_time + span
    } else {
        u64::MAX
    }
}

/// SRV Resolver backed by `libresolv`.
#[derive(Debug)]
pub struct LibResolv {
    initial_buf_size: usize,
}

impl LibResolv {
    /// Initializes a resolver with a specific initial buffer size for DNS answers.
    pub fn new(initial_buf_size: usize) -> (r: Self)
        ensures
            r.spec_initial_buf_size() == initial_buf_size,
    {
        LibResolv { initial_buf_size }
    }

    /// The size of the buffer that a lookup first reads an answer into.
    pub closed spec fn spec_initial_buf_size(&self) -> usize {
        self.initial_buf_size
    }

    /// The size of the buffer that a lookup first reads an answer into.
    pub fn initial_buf_size(&self) -> (r: usize)
        ensures
            r == self.spec_initial_buf_size(),
    {
        self.initial_buf_size
    }
}

impl Default for LibResolv {
    fn default() -> (r: Self)
        ensures
            r.spec_initial_buf_size() == NS_PACKETSZ,
    {
        LibResolv::new(NS_PACKETSZ)
    }
}

/// Representation of SRV records used by the libresolv backend, and the form in
/// which every backend hands its records to the library.
#[derive(Clone, Debug, PartialEq, Eq)]
pub struct LibResolvSrvRecord {
    /// Records's target.
    pub target: String,
    /// Record's port.
    pub port: u16,
    /// Record's priority.
    pub priority: u16,
    /// Record's weight.
    pub weight: u16,
}

impl LibResolvSrvRecord {
    /// A field-by-field copy of the record.
    pub fn duplicate(&self) -> (r: Self)
        ensures
            r == *self,
    {
        LibResolvSrvRecord {
            target: self.target.clone(),
            port: self.port,
            priority: self.priority,
            weight: self.weight,
        }
    }
}

} // verus!
