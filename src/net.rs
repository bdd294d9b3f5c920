//! Transfer-level logic: download progress, response status, header values.
use vstd::prelude::*;

verus! {

/// Failure of a transfer.
#[derive(Clone, Debug, PartialEq, Eq)]
pub enum Error {
    IoError(String),
    /// The server answered with a status outside the success range.
    StatusError(u16),
    GenericHttpError(String),
    UnknownError(String),
}

/// Progress of one download stream.
#[derive(Clone, Debug, PartialEq, Eq)]
pub enum DownloadProgress {
    Waiting(),
    Started(),
    Receiving { expected_bytes: Option<u64>, received_bytes: u64 },
    Finished(),
}

/// The transitions a progress stream may make, one report to the next.
pub open spec fn is_progress_step(a: DownloadProgress, b: DownloadProgress) -> bool {
    match (a, b) {
        (DownloadProgress::Waiting(), DownloadProgress::Started()) => true,
        (DownloadProgress::Waiting(), DownloadProgress::Finished()) => true,
        (DownloadProgress::Started(), DownloadProgress::Receiving { .. }) => true,
        (DownloadProgress::Started(), DownloadProgress::Finished()) => true,
        (
            DownloadProgress::Receiving { expected_bytes: e1, received_bytes: r1 },
            DownloadProgress::Receiving { expected_bytes: e2, received_bytes: r2 },
        ) => e1 == e2 && r1 <= r2,
        (DownloadProgress::Receiving { .. }, DownloadProgress::Finished()) => true,
        _ => false,
    }
}

/// A well-formed sequence of progress reports: it starts at `Waiting` and
/// every report follows from the one before it.
pub open spec fn is_progress_trace(t: Seq<DownloadProgress>) -> bool {
    &&& t.len() > 0
    &&& t[0] == DownloadProgress::Waiting()
    &&& forall|i: int| 0 <= i < t.len() - 1 ==> #[trigger] is_progress_step(t[i], t[i + 1])
}

/// Whether an HTTP status code counts as success.
pub open spec fn is_success_status(code: u16) -> bool {
    200 <= code < 300
}

/// Accepts a response status: success for a 2xx code, else the status error.
pub fn check_status(code: u16) -> (r: Result<(), Error>)
    ensures
        is_success_status(code) <==> r is Ok,
        !is_success_status(code) ==> r == Err::<(), Error>(Error::StatusError(code)),
{
    if 200 <= code && code < 300 {
        Ok(())
    } else {
        Err(Error::StatusError(code))
    }
}

/// The value of the authorization header for a token.
pub open spec fn authorization_of(token: Seq<char>) -> Seq<char> {
    "Token "@ + token
}

/// Builds the authorization header value that carries `token`.
pub fn authorization_value(token: &str) -> (r: String)
    ensures
        r@ == authorization_of(token@),
{
    let prefix = String::from_str("Token ");
    prefix.concat(token)
}

pub open spec fn is_digit(c: char) -> bool {
    '0' <= c <= '9'
}

pub open spec fn digit_value(c: char) -> int {
    c as int - '0' as int
}

/// The number written by a string of decimal digits.
pub open spec fn digits_value(s: Seq<char>) -> int
    decreases s.len(),
{
    if s.len() == 0 {
        0
    } else {
        digits_value(s.drop_last()) * 10 + digit_value(s.last())
    }
}

/// The digits of a decimal literal, after its optional leading `+`.
pub open spec fn unsigned_digits(s: Seq<char>) -> Seq<char> {
    if s.len() > 0 && s[0] == '+' {
        s.drop_first()
    } else {
        s
    }
}

pub open spec fn all_digits(d: Seq<char>) -> bool {
    forall|i: int| 0 <= i < d.len() ==> is_digit(#[trigger] d[i])
}

/// Whether `s` is the decimal text of a `u64`.
pub open spec fn is_u64_text(s: Seq<char>) -> bool {
    &&& unsigned_digits(s).len() > 0
    &&& all_digits(unsigned_digits(s))
    &&& digits_value(unsigned_digits(s)) <= u64::MAX
}

proof fn lemma_digits_value_nonneg(s: Seq<char>)
    requires
        forall|i: int| 0 <= i < s.len() ==> is_digit(#[trigger] s[i]),
    ensures
        digits_value(s) >= 0,
    decreases s.len(),
{
    if s.len() > 0 {
        lemma_digits_value_nonneg(s.drop_last());
    }
}

proof fn lemma_digits_value_prefix(s: Seq<char>, k: int)
    requires
        0 <= k <= s.len(),
        forall|i: int| 0 <= i < s.len() ==> is_digit(#[trigger] s[i]),
    ensures
        digits_value(s.subrange(0, k)) <= digits_value(s),
    decreases s.len(),
{
    if k < s.len() {
        let t = s.drop_last();
        assert(t.subrange(0, k) == s.subrange(0, k));
        lemma_digits_value_prefix(t, k);
        lemma_digits_value_nonneg(t);
        assert(s.subrange(0, s.len() as int) == s);
    } else {
        assert(s.subrange(0, k) == s);
    }
}

/// Reads the decimal text of a `u64`, as a `Content-Length` value is written.
pub fn parse_u64(s: &str) -> (r: Result<u64, Error>)
    ensures
        is_u64_text(s@) <==> r is Ok,
        r matches Ok(n) ==> n as int == digits_value(unsigned_digits(s@)),
        r matches Err(e) ==> e is GenericHttpError,
{
    let n = s.unicode_len();
    let mut start: usize = 0;
    if n > 0 && s.get_char(0) == '+' {
        start = 1;
    }
    let ghost d = unsigned_digits(s@);
    assert(d == s@.subrange(start as int, s@.len() as int));
    if start == n {
        return Err(Error::GenericHttpError(String::from_str("empty number")));
    }
    let mut acc: u64 = 0;
    let mut i: usize = start;
    while i < n
        invariant
            start <= i <= n,
            n == s@.len(),
            d == s@.subrange(start as int, n as int),
            d == unsigned_digits(s@),
            forall|j: int| 0 <= j < i - start ==> is_digit(#[trigger] d[j]),
            acc as int == digits_value(d.subrange(0, i - start)),
        decreases n - i,
    {
        let c = s.get_char(i);
        if !(c >= '0' && c <= '9') {
            assert(d[i - start] == c);
            assert(!is_digit(d[i - start]));
            return Err(Error::GenericHttpError(String::from_str("invalid digit")));
        }
        let v = (c as u32 - '0' as u32) as u64;
        let ghost next = d.subrange(0, i + 1 - start);
        assert(next.drop_last() == d.subrange(0, i - start));
        assert(next.last() == c);
        if acc > (u64::MAX - v) / 10 {
            proof {
                assert(acc * 10 + v > u64::MAX) by (nonlinear_arith)
                    requires acc > (u64::MAX - v) / 10, v <= 9;
                if is_u64_text(s@) {
                    assert(all_digits(d));
                    lemma_digits_value_prefix(d, i + 1 - start);
                }
            }
            return Err(Error::GenericHttpError(String::from_str("number too large")));
        }
        acc = acc * 10 + v;
        i = i + 1;
    }
    assert(d.subrange(0, n - start) == d);
    Ok(acc)
}

/// Reads an optional `Content-Length` value: absent means the size is unknown.
pub fn expected_bytes(header: Option<&str>) -> (r: Result<Option<u64>, Error>)
    ensures
        header is None ==> r == Ok::<Option<u64>, Error>(None),
        header matches Some(h) ==> (r is Ok <==> is_u64_text(h@)),
        header matches Some(h) ==> (r matches Ok(Some(n)) ==> n as int == digits_value(
            unsigned_digits(h@),
        )),
        r matches Ok(v) ==> (v is Some <==> header is Some),
        r matches Err(e) ==> e is GenericHttpError,
{
    match header {
        None => Ok(None),
        Some(h) => match parse_u64(h) {
            Ok(n) => Ok(Some(n)),
            Err(e) => Err(e),
        },
    }
}

/// Reads the declared type of a downloaded artifact; a response without one
/// is refused.
pub fn content_type(header: Option<&str>) -> (r: Result<String, Error>)
    ensures
        r is Ok <==> header is Some,
        r matches Ok(t) ==> header matches Some(h) && t@ == h@,
        r matches Err(e) ==> e is GenericHttpError,
{
    match header {
        None => Err(Error::GenericHttpError(String::from_str("no content type"))),
        Some(h) => Ok(String::from_str(h)),
    }
}

/// Tracks one download stream and produces its progress reports.
pub struct DownloadTracker {
    pub expected_bytes: Option<u64>,
    pub received_bytes: u64,
    pub current: DownloadProgress,
    /// Every report produced so far, oldest first.
    pub trace: Ghost<Seq<DownloadProgress>>,
}

impl DownloadTracker {
    pub open spec fn wf(&self) -> bool {
        &&& is_progress_trace(self.trace@)
        &&& self.trace@.last() == self.current
        &&& self.current matches DownloadProgress::Receiving { expected_bytes, received_bytes }
            ==> expected_bytes == self.expected_bytes && received_bytes == self.received_bytes
        &&& (self.current is Waiting || self.current is Started) ==> self.received_bytes == 0
        &&& forall|i: int|
            0 <= i < self.trace@.len() ==> (#[trigger] self.trace@[i] matches DownloadProgress::Receiving {
                expected_bytes,
                ..
            } ==> expected_bytes == self.expected_bytes)
        &&& (self.current is Waiting || self.current is Started) ==> forall|i: int|
            0 <= i < self.trace@.len() ==> !(#[trigger] self.trace@[i] is Receiving)
    }

    /// A stream that has not started.
    pub fn new() -> (r: Self)
        ensures
            r.wf(),
            r.current == DownloadProgress::Waiting(),
            r.trace@ == seq![DownloadProgress::Waiting()],
            r.received_bytes == 0,
            r.expected_bytes is None,
    {
        let ghost t = seq![DownloadProgress::Waiting()];
        DownloadTracker {
            expected_bytes: None,
            received_bytes: 0,
            current: DownloadProgress::Waiting(),
            trace: Ghost(t),
        }
    }

    /// The request is about to be sent.
    pub fn start(&mut self) -> (r: DownloadProgress)
        requires
            old(self).wf(),
            old(self).current is Waiting,
        ensures
            final(self).wf(),
            r == DownloadProgress::Started(),
            final(self).current == r,
            final(self).trace@ == old(self).trace@.push(r),
            final(self).received_bytes == 0,
            final(self).expected_bytes == old(self).expected_bytes,
    {
        self.current = DownloadProgress::Started();
        self.trace = Ghost(self.trace@.push(DownloadProgress::Started()));
        proof {
            assert(is_progress_step(old(self).trace@.last(), DownloadProgress::Started()));
            let t = self.trace@;
            assert forall|i: int| 0 <= i < t.len() - 1 implies #[trigger] t[i] == old(self).trace@[i] by {}
            assert forall|i: int| 0 <= i < t.len() - 1 implies #[trigger] is_progress_step(
                t[i],
                t[i + 1],
            ) by {
                if i < t.len() - 2 {
                    assert(t[i] == old(self).trace@[i]);
                    assert(t[i + 1] == old(self).trace@[i + 1]);
                }
            }
        }
        DownloadProgress::Started()
    }

    /// Records the size the server announced, if any.
    pub fn set_expected(&mut self, expected: Option<u64>)
        requires
            old(self).wf(),
            old(self).current is Started,
        ensures
            final(self).wf(),
            final(self).expected_bytes == expected,
            final(self).received_bytes == old(self).received_bytes,
            final(self).current == old(self).current,
            final(self).trace@ == old(self).trace@,
    {
        self.expected_bytes = expected;
    }

    /// A chunk of `len` bytes arrived. Fails, changing nothing, only where the
    /// running total would not fit in a `u64`.
    pub fn receive(&mut self, len: u64) -> (r: Result<DownloadProgress, Error>)
        requires
            old(self).wf(),
            old(self).current is Started || old(self).current is Receiving,
        ensures
            final(self).wf(),
            r is Ok <==> old(self).received_bytes + len <= u64::MAX,
            r is Err ==> *final(self) == *old(self),
            r matches Ok(p) ==> {
                &&& p == DownloadProgress::Receiving {
                    expected_bytes: old(self).expected_bytes,
                    received_bytes: (old(self).received_bytes + len) as u64,
                }
                &&& final(self).current == p
                &&& final(self).received_bytes == old(self).received_bytes + len
                &&& final(self).expected_bytes == old(self).expected_bytes
                &&& final(self).trace@ == old(self).trace@.push(p)
            },
    {
        if len > u64::MAX - self.received_bytes {
            return Err(Error::UnknownError(String::from_str("received size overflows")));
        }
        let received = self.received_bytes + len;
        let ghost prev = self.current;
        self.received_bytes = received;
        self.current = DownloadProgress::Receiving {
            expected_bytes: self.expected_bytes,
            received_bytes: received,
        };
        let p = DownloadProgress::Receiving {
            expected_bytes: self.expected_bytes,
            received_bytes: received,
        };
        self.trace = Ghost(self.trace@.push(p));
        proof {
            assert(is_progress_step(prev, p));
            let t = self.trace@;
            assert forall|i: int| 0 <= i < t.len() - 1 implies #[trigger] t[i] == old(self).trace@[i] by {}
            assert forall|i: int| 0 <= i < t.len() - 1 implies #[trigger] is_progress_step(
                t[i],
                t[i + 1],
            ) by {
                if i < t.len() - 2 {
                    assert(t[i] == old(self).trace@[i]);
                    assert(t[i + 1] == old(self).trace@[i + 1]);
                }
            }
        }
        Ok(p)
    }

    /// The stream ended: the body was fully written, or there was nothing to fetch.
    pub fn finish(&mut self) -> (r: DownloadProgress)
        requires
            old(self).wf(),
            !(old(self).current is Finished),
        ensures
            final(self).wf(),
            r == DownloadProgress::Finished(),
            final(self).current == r,
            final(self).trace@ == old(self).trace@.push(r),
            final(self).received_bytes == old(self).received_bytes,
            final(self).expected_bytes == old(self).expected_bytes,
    {
        let ghost prev = self.current;
        self.current = DownloadProgress::Finished();
        self.trace = Ghost(self.trace@.push(DownloadProgress::Finished()));
        proof {
            assert(is_progress_step(prev, DownloadProgress::Finished()));
            let t = self.trace@;
            assert forall|i: int| 0 <= i < t.len() - 1 implies #[trigger] t[i] == old(self).trace@[i] by {}
            assert forall|i: int| 0 <= i < t.len() - 1 implies #[trigger] is_progress_step(
                t[i],
                t[i + 1],
            ) by {
                if i < t.len() - 2 {
                    assert(t[i] == old(self).trace@[i]);
                    assert(t[i + 1] == old(self).trace@[i + 1]);
                }
            }
        }
        DownloadProgress::Finished()
    }
}

/// Every well-formed stream has the shape `Waiting`, then `Started`, then any
/// number of `Receiving` reports, then `Finished`: `Waiting` only first,
/// `Started` only second, `Finished` only last, and the `Receiving` reports
/// agree on the expected size and never count down.
pub proof fn lemma_progress_trace_shape(t: Seq<DownloadProgress>)
    requires
        is_progress_trace(t),
    ensures
        forall|i: int| 0 < i < t.len() ==> !(#[trigger] t[i] is Waiting),
        forall|i: int| 0 <= i < t.len() && #[trigger] t[i] is Started ==> i == 1,
        forall|i: int| 0 <= i < t.len() && #[trigger] t[i] is Finished ==> i == t.len() - 1,
        forall|i: int| 0 <= i < t.len() && #[trigger] t[i] is Receiving ==> i >= 2 && t[1] is Started,
        forall|i: int, j: int|
            0 <= i < j < t.len() && #[trigger] t[i] is Receiving && #[trigger] t[j] is Receiving
                ==> t[i]->expected_bytes == t[j]->expected_bytes && t[i]->received_bytes
                <= t[j]->received_bytes,
    decreases t.len(),
{
    if t.len() > 1 {
        let p = t.drop_last();
        assert forall|i: int| 0 <= i < p.len() - 1 implies #[trigger] is_progress_step(p[i], p[i + 1]) by {
            assert(is_progress_step(t[i], t[i + 1]));
        }
        lemma_progress_trace_shape(p);
        let n = t.len() - 1;
        let k = n - 1;
        assert(is_progress_step(t[k], t[k + 1]));
        assert(k + 1 == n);
        assert forall|i: int| 0 <= i < n implies p[i] == #[trigger] t[i] by {}
        assert forall|i: int| 0 <= i < t.len() && #[trigger] t[i] is Finished implies i == t.len() - 1 by {
            if i < n {
                assert(p[i] is Finished);
                assert(i == n - 1);
            }
        }
        assert forall|i: int, j: int|
            0 <= i < j < t.len() && #[trigger] t[i] is Receiving && #[trigger] t[j] is Receiving
            implies t[i]->expected_bytes == t[j]->expected_bytes && t[i]->received_bytes
            <= t[j]->received_bytes by {
            if j == n {
                assert(t[n - 1] is Receiving) by {
                    if t[n - 1] is Started {
                        assert(n - 1 == 1);
                        assert(p[i] is Receiving);
                        assert(i >= 2);
                    }
                }
                if i < n - 1 {
                    assert(p[i] is Receiving && p[n - 1] is Receiving);
                }
            } else {
                assert(p[i] is Receiving && p[j] is Receiving);
            }
        }
    }
}

} // verus!
