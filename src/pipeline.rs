//! Matching replies to requests: each request gets the records the server sends for it
//! and the one summary (`SUCCESS`, `FAILURE` or `IGNORED`) that ends them, in request order.
use vstd::prelude::*;

use crate::error::ClientError;
use crate::message::Message;
use crate::value::ValueModel;

verus! {

/// The replies to one request: its records, then its summary.
#[derive(Debug)]
pub struct Reply {
    pub records: Vec<Message>,
    pub summary: Message,
}

/// The replies gathered from `stream`, and the records that still wait for their summary.
pub open spec fn grouped(stream: Seq<Message>) -> (Seq<(Seq<Message>, Message)>, Seq<Message>)
    decreases stream.len(),
{
    if stream.len() == 0 {
        (Seq::empty(), Seq::empty())
    } else {
        let (done, waiting) = grouped(stream.drop_last());
        let m = stream.last();
        if m is Record {
            (done, waiting.push(m))
        } else {
            (done.push((waiting, m)), Seq::empty())
        }
    }
}

/// The messages of `stream` that end a reply, in order.
pub open spec fn summaries(stream: Seq<Message>) -> Seq<Message>
    decreases stream.len(),
{
    if stream.len() == 0 {
        Seq::empty()
    } else if stream.last() is Record {
        summaries(stream.drop_last())
    } else {
        summaries(stream.drop_last()).push(stream.last())
    }
}

/// Whether a message can end a reply: `SUCCESS`, `FAILURE` or `IGNORED`.
pub open spec fn is_summary(m: Message) -> bool {
    m is Success || m is Failure || m is Ignored
}

/// The replies as pairs of records and summary.
pub open spec fn replies_model(rs: Seq<Reply>) -> Seq<(Seq<Message>, Message)> {
    Seq::new(rs.len(), |i: int| (rs[i].records@, rs[i].summary))
}

/// Replies keep the order of the stream: there is one for each summary, and the i-th
/// reply ends with the i-th summary the server sent.
pub proof fn lemma_pipeline_order(stream: Seq<Message>)
    ensures
        grouped(stream).0.len() == summaries(stream).len(),
        forall|i: int|
            0 <= i < summaries(stream).len() ==> #[trigger] grouped(stream).0[i].1 == summaries(
                stream,
            )[i],
        forall|j: int| 0 <= j < grouped(stream).1.len() ==> #[trigger] grouped(stream).1[j] is Record,
    decreases stream.len(),
{
    if stream.len() > 0 {
        lemma_pipeline_order(stream.drop_last());
    }
}

/// The replies to a batch of requests sent back to back, as they arrive.
pub struct Pipeline {
    pub expected: usize,
    pub replies: Vec<Reply>,
    pub waiting: Vec<Message>,
    pub stream: Ghost<Seq<Message>>,
}

impl Pipeline {
    /// Whether the gathered replies are those of the messages seen so far.
    pub open spec fn wf(&self) -> bool {
        &&& replies_model(self.replies@) == grouped(self.stream@).0
        &&& self.waiting@ == grouped(self.stream@).1
        &&& self.replies@.len() <= self.expected
        &&& forall|i: int| 0 <= i < self.replies@.len() ==> is_summary(#[trigger] self.replies@[i].summary)
        &&& forall|i: int|
            0 <= i < self.stream@.len() ==> #[trigger] self.stream@[i] is Record || is_summary(
                self.stream@[i],
            )
    }

    /// Whether every request has its reply.
    pub open spec fn complete(&self) -> bool {
        self.replies@.len() == self.expected
    }

    /// A pipeline that waits for the replies to `expected` requests.
    pub fn new(expected: usize) -> (r: Pipeline)
        ensures
            r.wf(),
            r.expected == expected,
            r.stream@.len() == 0,
            r.replies@.len() == 0,
    {
        let r = Pipeline {
            expected,
            replies: Vec::new(),
            waiting: Vec::new(),
            stream: Ghost(Seq::empty()),
        };
        assert(replies_model(r.replies@) =~= Seq::<(Seq<Message>, Message)>::empty());
        r
    }

    /// Whether every request has its reply.
    pub fn is_complete(&self) -> (r: bool)
        ensures
            r == self.complete(),
    {
        self.replies.len() == self.expected
    }

    /// Takes the next message from the server: a record waits for its summary, a summary
    /// (`SUCCESS`, `FAILURE` or `IGNORED`) ends the reply of the oldest request still open.
    /// Any other message is refused with `UnexpectedReply` and changes nothing.
    pub fn accept(&mut self, m: Message) -> (r: Result<(), ClientError>)
        requires
            old(self).wf(),
            !old(self).complete(),
        ensures
            final(self).wf(),
            final(self).expected == old(self).expected,
            r is Ok <==> (m is Record || is_summary(m)),
            r is Ok ==> final(self).stream@ == old(self).stream@.push(m),
            r is Err ==> *final(self) == *old(self),
            r matches Err(e) ==> m.model() matches ValueModel::Structure(sig, _) && e
                == ClientError::UnexpectedReply(sig),
            m is Record ==> final(self).replies@ == old(self).replies@,
            is_summary(m) ==> final(self).replies@.len() == old(self).replies@.len() + 1,
    {
        let (is_record, ends_reply) = match &m {
            Message::Record { .. } => (true, false),
            Message::Success { .. } | Message::Failure { .. } | Message::Ignored => (false, true),
            _ => (false, false),
        };
        if !is_record && !ends_reply {
            return Err(ClientError::UnexpectedReply(m.get_signature()));
        }
        let ghost s = self.stream@.push(m);
        assert(s.drop_last() =~= self.stream@);
        if is_record {
            self.waiting.push(m);
        } else {
            let mut records: Vec<Message> = Vec::new();
            std::mem::swap(&mut records, &mut self.waiting);
            self.replies.push(Reply { records, summary: m });
            assert(replies_model(self.replies@) =~= grouped(s).0);
        }
        self.stream = Ghost(s);
        assert forall|i: int| 0 <= i < s.len() implies #[trigger] s[i] is Record || is_summary(
            s[i],
        ) by {
            if i < s.len() - 1 {
                assert(s[i] == old(self).stream@[i]);
            }
        }
        Ok(())
    }

    /// The replies, one for each request, in request order.
    pub fn finish(self) -> (r: Vec<Reply>)
        requires
            self.wf(),
            self.complete(),
        ensures
            r@.len() == self.expected,
            replies_model(r@) == grouped(self.stream@).0,
            r@.len() == summaries(self.stream@).len(),
            forall|i: int| 0 <= i < r@.len() ==> #[trigger] r@[i].summary == summaries(self.stream@)[i],
    {
        proof {
            lemma_pipeline_order(self.stream@);
            assert forall|i: int| 0 <= i < self.replies@.len() implies #[trigger] self.replies@[i].summary
                == summaries(self.stream@)[i] by {
                assert(replies_model(self.replies@)[i] == (self.replies@[i].records@, self.replies@[i].summary));
                assert(replies_model(self.replies@).len() == self.replies@.len());
                assert(grouped(self.stream@).0[i].1 == summaries(self.stream@)[i]);
            }
        }
        self.replies
    }
}

} // verus!
