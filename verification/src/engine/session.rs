//! One client's conversation with the baseline engine: which requests were
//! withdrawn, and what is answered to a message.

use crate::confidence::Confidence;
use crate::engine::baseline::BaselineSuggestor;
use crate::engine::protocol::{ClientMessage, EngineMessage, EngineMessageView};
use vstd::prelude::*;

verus! {

/// The state of one connection: the ids of the requests that were
/// withdrawn before they came.
#[derive(Debug)]
pub struct ClientSession {
    canceled: Vec<String>,
}

/// The ids in a list.
pub open spec fn ids_of(list: Seq<String>) -> Set<Seq<char>> {
    Set::new(|id: Seq<char>| exists|i: int| 0 <= i < list.len() && (#[trigger] list[i])@ == id)
}

/// The position of `id` in the list.
fn position(list: &Vec<String>, id: &String) -> (r: Option<usize>)
    ensures
        match r {
            Some(i) => i < list@.len() && list@[i as int]@ == id@,
            None => !ids_of(list@).contains(id@),
        },
{
    let mut i: usize = 0;
    while i < list.len()
        invariant
            i <= list@.len(),
            forall|k: int| 0 <= k < i ==> (#[trigger] list@[k])@ != id@,
        decreases list@.len() - i,
    {
        if list[i] == *id {
            return Some(i);
        }
        i += 1;
    }
    None
}

/// The reply to a request for which the engine proposes `proposal`: the
/// proposal, or an empty suggestion of confidence zero. Its range is empty
/// and stands at the cursor.
pub open spec fn reply_for(
    request_id: Seq<char>,
    cursor: usize,
    proposal: Option<(Seq<char>, Confidence)>,
) -> EngineMessageView {
    EngineMessageView {
        request_id,
        suggestion: match proposal {
            Some((text, _)) => text,
            None => Seq::<char>::empty(),
        },
        confidence: match proposal {
            Some((_, confidence)) => confidence,
            None => Confidence { num: 0, den: 1 },
        },
        range_start: cursor,
        range_end: cursor,
    }
}

/// The view of an optional reply.
pub open spec fn reply_view(reply: Option<EngineMessage>) -> Option<EngineMessageView> {
    match reply {
        Some(m) => Some(m@),
        None => None,
    }
}

impl ClientSession {
    /// No id is listed twice.
    #[verifier::type_invariant]
    pub closed spec fn wf(self) -> bool {
        forall|i: int, j: int|
            0 <= i < j < self.canceled@.len() ==> (#[trigger] self.canceled@[i])@ != (
            #[trigger] self.canceled@[j])@
    }

    /// The ids of the requests that were withdrawn and have not come yet.
    pub closed spec fn canceled(self) -> Set<Seq<char>> {
        ids_of(self.canceled@)
    }

    /// The state of a new connection: nothing was withdrawn.
    pub fn new() -> (s: ClientSession)
        ensures
            s.canceled() == Set::<Seq<char>>::empty(),
    {
        let s = ClientSession { canceled: Vec::new() };
        assert(s.canceled() =~= Set::<Seq<char>>::empty());
        s
    }

    /// Handles one message of the client.
    ///
    /// A cancellation is noted and not answered. A request that was
    /// withdrawn is dropped without an answer, and its id is forgotten.
    /// Every other request is answered: with the engine's proposal, or with
    /// an empty suggestion of confidence zero where the engine proposes
    /// nothing. The range of every answer is empty and stands at the
    /// request's cursor.
    pub fn handle_message(&mut self, suggestor: &BaselineSuggestor, message: ClientMessage) -> (reply:
        Option<EngineMessage>)
        ensures
            match message {
                ClientMessage::Cancel { request_id } => {
                    &&& reply is None
                    &&& final(self).canceled() == old(self).canceled().insert(request_id@)
                },
                ClientMessage::Suggest { request_id, context, cursor, max_len, .. } => {
                    if old(self).canceled().contains(request_id@) {
                        &&& reply is None
                        &&& final(self).canceled() == old(self).canceled().remove(request_id@)
                    } else {
                        &&& final(self).canceled() == old(self).canceled()
                        &&& reply_view(reply) == Some(
                            reply_for(
                                request_id@,
                                cursor,
                                suggestor.proposal(context@, cursor as nat, max_len as nat),
                            ),
                        )
                    }
                },
            },
            reply matches Some(m) ==> m@.range_start == m@.range_end,
            suggestor.vocabulary().wf(),
    {
        proof {
            use_type_invariant(suggestor);
            suggestor.lemma_vocabulary();
        }
        let mut taken = ClientSession::new();
        std::mem::swap(self, &mut taken);
        proof {
            use_type_invariant(&taken);
        }
        let mut canceled = taken.canceled;
        let ghost before = canceled@;
        match message {
            ClientMessage::Cancel { request_id } => {
                if position(&canceled, &request_id).is_none() {
                    canceled.push(request_id);
                    assert forall|id: Seq<char>|
                        ids_of(canceled@).contains(id) == ids_of(before).insert(
                            request_id@,
                        ).contains(id) by {
                        if ids_of(canceled@).contains(id) {
                            let i = choose|i: int|
                                0 <= i < canceled@.len() && (#[trigger] canceled@[i])@ == id;
                            if i < before.len() {
                                assert(before[i]@ == id);
                            }
                        }
                        if ids_of(before).contains(id) {
                            let i = choose|i: int|
                                0 <= i < before.len() && (#[trigger] before[i])@ == id;
                            assert(canceled@[i]@ == id);
                        }
                        if id == request_id@ {
                            assert(canceled@[before.len() as int]@ == id);
                        }
                    }
                }
                assert(ids_of(canceled@) =~= ids_of(before).insert(request_id@));
                *self = ClientSession { canceled };
                None
            },
            ClientMessage::Suggest {
                request_id,
                context,
                cursor,
                language_hint: _,
                max_len,
                client: _,
            } => {
                match position(&canceled, &request_id) {
                    Some(i) => {
                        canceled.remove(i);
                        assert forall|id: Seq<char>|
                            ids_of(canceled@).contains(id) == ids_of(before).remove(
                                request_id@,
                            ).contains(id) by {
                            if ids_of(canceled@).contains(id) {
                                let k = choose|k: int|
                                    0 <= k < canceled@.len() && (#[trigger] canceled@[k])@ == id;
                                if k < i {
                                    assert(before[k]@ == id);
                                } else {
                                    assert(before[k + 1]@ == id);
                                }
                            }
                            if ids_of(before).contains(id) && id != request_id@ {
                                let k = choose|k: int|
                                    0 <= k < before.len() && (#[trigger] before[k])@ == id;
                                if k < i {
                                    assert(canceled@[k]@ == id);
                                } else {
                                    assert(canceled@[k - 1]@ == id);
                                }
                            }
                        }
                        assert(ids_of(canceled@) =~= ids_of(before).remove(request_id@));
                        *self = ClientSession { canceled };
                        None
                    },
                    None => {
                        *self = ClientSession { canceled };
                        let reply = match suggestor.suggest_utf16(context.as_str(), cursor, max_len) {
                            Some(s) => EngineMessage::Suggestion {
                                request_id,
                                suggestion: s.suggestion,
                                confidence: s.confidence,
                                replace_range: s.replace_range,
                            },
                            None => EngineMessage::Suggestion {
                                request_id,
                                suggestion: String::new(),
                                confidence: Confidence::zero(),
                                replace_range: [cursor, cursor],
                            },
                        };
                        Some(reply)
                    },
                }
            },
        }
    }
}

} // verus!
