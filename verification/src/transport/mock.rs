//! In-memory [`Transport`] for tests. Each write pops the next scripted
//! response (if any) and appends it to the internal read buffer, mimicking a
//! request/response exchange with the radio.

use std::collections::VecDeque;
use std::time::Duration;
use vstd::prelude::*;
use vstd::slice::slice_to_vec;

use super::{Transport, TransportError};

verus! {

/// One call made on a [`MockTransport`] after it was created.
pub enum MockCall {
    /// `write_all` of these bytes.
    Write(Seq<u8>),
    /// `read_exact_timeout`, whatever it read.
    Read,
    /// `flush_input`.
    Flush,
}

/// The buffers written by `calls`, in order.
pub open spec fn writes_of(calls: Seq<MockCall>) -> Seq<Seq<u8>>
    decreases calls.len(),
{
    if calls.len() == 0 {
        Seq::empty()
    } else {
        let w = writes_of(calls.drop_last());
        match calls.last() {
            MockCall::Write(d) => w.push(d),
            _ => w,
        }
    }
}

/// How one call changes the written log: a write appends its buffer, reads
/// and flushes leave the log alone.
pub open spec fn log_step(before: Seq<Seq<u8>>, call: MockCall, after: Seq<Seq<u8>>) -> bool {
    match call {
        MockCall::Write(d) => after == before.push(d),
        _ => after == before,
    }
}

/// The written log of a mock transport holds every buffer written since it
/// was created, in order, whatever reads and flushes came in between:
/// `states[0]` is a transport fresh from `new` or `new_preloaded`, and each
/// `states[i + 1]` is `states[i]` after `calls[i]`.
pub proof fn lemma_written_log(states: Seq<MockTransport>, calls: Seq<MockCall>)
    requires
        states.len() == calls.len() + 1,
        states[0].written_log() == Seq::<Seq<u8>>::empty(),
        forall|i: int|
            0 <= i < calls.len() ==> log_step(
                states[i].written_log(),
                #[trigger] calls[i],
                states[i + 1].written_log(),
            ),
    ensures
        states.last().written_log() == writes_of(calls),
    decreases calls.len(),
{
    if calls.len() > 0 {
        let n = calls.len() - 1;
        lemma_written_log(states.drop_last(), calls.drop_last());
        assert(log_step(states[n].written_log(), calls[n], states[n + 1].written_log()));
        assert(states.drop_last().last() == states[n]);
    }
}

/// Scripted transport: records writes and serves canned responses.
pub struct MockTransport {
    written: Vec<Vec<u8>>,
    read_buf: VecDeque<u8>,
    script: VecDeque<Vec<u8>>,
}

impl MockTransport {
    /// Every buffer accepted by `write_all`, in order.
    pub closed spec fn written_log(&self) -> Seq<Seq<u8>> {
        self.written@.map_values(|v: Vec<u8>| v@)
    }

    /// Bytes waiting to be read.
    pub closed spec fn pending(&self) -> Seq<u8> {
        self.read_buf@
    }

    /// Responses not yet served, in order.
    pub closed spec fn script(&self) -> Seq<Seq<u8>> {
        self.script@.map_values(|v: Vec<u8>| v@)
    }

    /// Creates a transport that appends `scripted_responses[i]` to its read
    /// buffer on the `i`-th write.
    pub fn new(scripted_responses: Vec<Vec<u8>>) -> (t: Self)
        ensures
            t.written_log() == Seq::<Seq<u8>>::empty(),
            t.pending() == Seq::<u8>::empty(),
            t.script() == scripted_responses@.map_values(|v: Vec<u8>| v@),
    {
        let mut responses = scripted_responses;
        let mut script: VecDeque<Vec<u8>> = VecDeque::new();
        let ghost all = scripted_responses@.map_values(|v: Vec<u8>| v@);
        while responses.len() > 0
            invariant
                all == scripted_responses@.map_values(|v: Vec<u8>| v@),
                responses@.len() <= all.len(),
                responses@.map_values(|v: Vec<u8>| v@) == all.take(responses@.len() as int),
                script@.map_values(|v: Vec<u8>| v@) == all.skip(responses@.len() as int),
            decreases responses@.len(),
        {
            let ghost before = responses@;
            let ghost old_script = script@;
            let v = responses.pop().unwrap();
            let ghost m = responses@.len() as int;
            assert(responses@ =~= before.drop_last());
            assert(v == before[m]);
            assert(before.map_values(|w: Vec<u8>| w@)[m] == all[m]);
            assert(responses@.map_values(|w: Vec<u8>| w@) =~= all.take(m));
            script.push_front(v);
            assert(script@ =~= seq![v] + old_script);
            assert(old_script.map_values(|w: Vec<u8>| w@) == all.skip(m + 1));
            let ghost ms = script@.map_values(|w: Vec<u8>| w@);
            let ghost mo = old_script.map_values(|w: Vec<u8>| w@);
            assert forall|k: int| 0 <= k < all.len() - m implies #[trigger] ms[k] == all.skip(
                m,
            )[k] by {
                if k > 0 {
                    assert(script@[k] == old_script[k - 1]);
                    assert(mo[k - 1] == all.skip(m + 1)[k - 1]);
                }
            }
            assert(script@.map_values(|w: Vec<u8>| w@) =~= all.skip(m));
        }
        assert(all.skip(0) =~= all);
        MockTransport { written: Vec::new(), read_buf: VecDeque::new(), script }
    }

    /// Creates a transport with `data` already in the read buffer (for
    /// testing broadcast reads that do not trigger a write).
    pub fn new_preloaded(data: Vec<u8>) -> (t: Self)
        ensures
            t.written_log() == Seq::<Seq<u8>>::empty(),
            t.pending() == data@,
            t.script() == Seq::<Seq<u8>>::empty(),
    {
        let mut read_buf: VecDeque<u8> = VecDeque::new();
        let mut i: usize = 0;
        while i < data.len()
            invariant
                i <= data@.len(),
                read_buf@ == data@.take(i as int),
            decreases data.len() - i,
        {
            read_buf.push_back(data[i]);
            assert(data@.take(i + 1) =~= data@.take(i as int).push(data@[i as int]));
            i += 1;
        }
        assert(data@.take(data.len() as int) =~= data@);
        let t = MockTransport { written: Vec::new(), read_buf, script: VecDeque::new() };
        assert(t.script() =~= Seq::<Seq<u8>>::empty());
        assert(t.written_log() =~= Seq::<Seq<u8>>::empty());
        t
    }

    /// Returns every buffer passed to [`Transport::write_all`], in order.
    pub fn written(&self) -> (w: &[Vec<u8>])
        ensures
            w@.map_values(|v: Vec<u8>| v@) == self.written_log(),
    {
        self.written.as_slice()
    }
}

impl Transport for MockTransport {
    fn write_all(&mut self, data: &[u8]) -> (r: Result<(), TransportError>)
        ensures
            r is Ok,
            final(self).written_log() == old(self).written_log().push(data@),
            log_step(old(self).written_log(), MockCall::Write(data@), final(self).written_log()),
            old(self).script().len() > 0 ==> final(self).pending() == old(self).pending()
                + old(self).script()[0] && final(self).script() == old(self).script().drop_first(),
            old(self).script().len() == 0 ==> final(self).pending() == old(self).pending()
                && final(self).script() == old(self).script(),
    {
        self.written.push(slice_to_vec(data));
        assert(self.written_log() =~= old(self).written_log().push(data@));
        let ghost written_now = self.written;
        match self.script.pop_front() {
            Some(resp) => {
                assert(self.script() =~= old(self).script().drop_first());
                assert(old(self).script()[0] == resp@);
                let mut i: usize = 0;
                while i < resp.len()
                    invariant
                        i <= resp@.len(),
                        self.read_buf@ == old(self).read_buf@ + resp@.take(i as int),
                        self.written == written_now,
                        self.written_log() == old(self).written_log().push(data@),
                        self.script() == old(self).script().drop_first(),
                        old(self).script()[0] == resp@,
                    decreases resp.len() - i,
                {
                    self.read_buf.push_back(resp[i]);
                    assert(resp@.take(i + 1) =~= resp@.take(i as int).push(resp@[i as int]));
                    i += 1;
                }
                assert(resp@.take(resp.len() as int) =~= resp@);
            },
            None => {},
        }
        Ok(())
    }

    fn read_exact_timeout(&mut self, buf: &mut [u8], _timeout: Duration) -> (r: Result<
        usize,
        TransportError,
    >)
        ensures
            old(self).pending().len() < old(buf)@.len() ==> r == Err::<usize, _>(
                TransportError::Timeout,
            ) && final(self).pending() == old(self).pending() && final(buf)@ == old(buf)@,
            old(self).pending().len() >= old(buf)@.len() ==> r == Ok::<_, TransportError>(
                old(buf)@.len() as usize,
            ) && final(buf)@ == old(self).pending().take(old(buf)@.len() as int)
                && final(self).pending() == old(self).pending().skip(old(buf)@.len() as int),
            final(self).script() == old(self).script(),
            final(self).written_log() == old(self).written_log(),
            log_step(old(self).written_log(), MockCall::Read, final(self).written_log()),
    {
        let n = buf.len();
        if self.read_buf.len() < n {
            return Err(TransportError::Timeout);
        }
        let mut i: usize = 0;
        while i < n
            invariant
                n == buf@.len(),
                n <= old(self).read_buf@.len(),
                i <= n,
                self.read_buf@ == old(self).read_buf@.skip(i as int),
                self.written == old(self).written,
                self.script == old(self).script,
                forall|k: int| 0 <= k < i ==> buf@[k] == old(self).read_buf@[k],
            decreases n - i,
        {
            let ghost before = self.read_buf@;
            let b = self.read_buf.pop_front().unwrap();
            assert(self.read_buf@ =~= old(self).read_buf@.skip(i + 1)) by {
                assert(self.read_buf@ =~= before.drop_first());
            }
            buf[i] = b;
            i += 1;
        }
        assert(buf@ =~= old(self).read_buf@.take(n as int));
        Ok(n)
    }

    fn flush_input(&mut self) -> (r: Result<(), TransportError>)
        ensures
            r is Ok,
            final(self).pending() == Seq::<u8>::empty(),
            final(self).script() == old(self).script(),
            final(self).written_log() == old(self).written_log(),
            log_step(old(self).written_log(), MockCall::Flush, final(self).written_log()),
    {
        self.read_buf.clear();
        Ok(())
    }
}

} // verus!
