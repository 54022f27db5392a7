//! Handling keys one at a time or in batches.

use vstd::prelude::*;

verus! {

/// What a batch returns for the answers it got, in order: the first failure
/// if the last answer is one, and otherwise the answers themselves.
pub open spec fn batch_result<R>(answers: Seq<Result<R, anyhow::Error>>) -> Result<
    Seq<R>,
    anyhow::Error,
> {
    if answers.len() > 0 && answers.last() is Err {
        Err(answers.last()->Err_0)
    } else {
        Ok(answers.map_values(|answer: Result<R, anyhow::Error>| answer->Ok_0))
    }
}

/// `calls` calls with these `answers` have the shape of a batch over `keys`
/// keys that stops at its first failure: one answer for each call, every
/// answer but the last a success, and fewer calls than keys only where the
/// last answer is a failure.
pub open spec fn fail_fast<R>(calls: nat, answers: Seq<Result<R, anyhow::Error>>, keys: nat) -> bool {
    &&& calls == answers.len()
    &&& calls <= keys
    &&& forall|i: int| 0 <= i < answers.len() - 1 ==> (#[trigger] answers[i]) is Ok
    &&& calls < keys ==> answers.len() > 0 && answers.last() is Err
}

/// Something that handles a key of type `K` and answers with an `R`.
pub trait LowBullMaster<K: Eq + PartialEq, R: Eq + PartialEq> {
    /// Handles one key.
    fn handle(&mut self, key: K) -> Result<R, anyhow::Error>;

    /// Handles `keys` in order and collects the answers.
    ///
    /// The batch stops at the first key whose handling fails: that error is
    /// returned, the answers gathered so far are dropped, and the keys after
    /// it are not handled.
    ///
    /// The contract speaks of the calls of [`LowBullMaster::handle`] that
    /// were made: call `i` was made on key `i`, the first on the value
    /// `self` had at entry, each later one on the value the call before it
    /// left, and `self` ends as the last call left it.
    fn handle_many(&mut self, keys: Vec<K>) -> (res: Result<Vec<R>, anyhow::Error>) where
        Self: Sized,

        ensures
            exists|calls: Seq<&mut Self>, answers: Seq<Result<R, anyhow::Error>>|
                {
                    &&& #[trigger] fail_fast(calls.len(), answers, keys@.len())
                    &&& forall|i: int|
                        #![trigger answers[i]]
                        #![trigger calls[i]]
                        0 <= i < calls.len() ==> {
                            &&& call_ensures(Self::handle, (calls[i], keys@[i]), answers[i])
                            &&& mut_ref_current(calls[i]) == if i == 0 {
                                *old(self)
                            } else {
                                mut_ref_future(calls[i - 1])
                            }
                        }
                    &&& *final(self) == if calls.len() == 0 {
                        *old(self)
                    } else {
                        mut_ref_future(calls.last())
                    }
                    &&& match res {
                        Ok(responses) => batch_result(answers) == Ok::<Seq<R>, anyhow::Error>(
                            responses@,
                        ),
                        Err(e) => batch_result(answers) == Err::<Seq<R>, anyhow::Error>(e),
                    }
                },
    {
        let mut responses: Vec<R> = Vec::new();
        proof {
            // Before the first key: no call, no answer.
            assert(fail_fast(0, Seq::<Result<R, anyhow::Error>>::empty(), 0));
            assert(Seq::<&mut Self>::empty().len() == 0);
        }
        for key in it: keys
            invariant
                it.seq() == keys@,
                exists|calls: Seq<&mut Self>, answers: Seq<Result<R, anyhow::Error>>|
                    {
                        &&& #[trigger] fail_fast(calls.len(), answers, calls.len())
                        &&& calls.len() == it.index()
                        &&& forall|i: int| 0 <= i < answers.len() ==> (#[trigger] answers[i]) is Ok
                        &&& responses@ == answers.map_values(
                            |answer: Result<R, anyhow::Error>| answer->Ok_0,
                        )
                        &&& forall|i: int|
                            #![trigger answers[i]]
                            #![trigger calls[i]]
                            0 <= i < calls.len() ==> {
                                &&& call_ensures(Self::handle, (calls[i], keys@[i]), answers[i])
                                &&& mut_ref_current(calls[i]) == if i == 0 {
                                    *old(self)
                                } else {
                                    mut_ref_future(calls[i - 1])
                                }
                            }
                        &&& *self == if calls.len() == 0 {
                            *old(self)
                        } else {
                            mut_ref_future(calls.last())
                        }
                    },
        {
            let ghost before = *self;
            let ghost earlier = responses@;
            let answer = self.handle(key);
            proof {
                // The calls and answers so far, as the invariant gave them
                // before this call.
                let (calls, answers) = choose|
                    calls: Seq<&mut Self>,
                    answers: Seq<Result<R, anyhow::Error>>,
                |
                    {
                        &&& #[trigger] fail_fast(calls.len(), answers, calls.len())
                        &&& calls.len() == it.index()
                        &&& forall|i: int| 0 <= i < answers.len() ==> (#[trigger] answers[i]) is Ok
                        &&& earlier == answers.map_values(
                            |answer: Result<R, anyhow::Error>| answer->Ok_0,
                        )
                        &&& forall|i: int|
                            #![trigger answers[i]]
                            #![trigger calls[i]]
                            0 <= i < calls.len() ==> {
                                &&& call_ensures(Self::handle, (calls[i], keys@[i]), answers[i])
                                &&& mut_ref_current(calls[i]) == if i == 0 {
                                    *old(self)
                                } else {
                                    mut_ref_future(calls[i - 1])
                                }
                            }
                        &&& before == if calls.len() == 0 {
                            *old(self)
                        } else {
                            mut_ref_future(calls.last())
                        }
                    };
                // The call just made, which extends them by one.
                let call = choose|call: &mut Self|
                    {
                        &&& mut_ref_current(call) == before
                        &&& mut_ref_future(call) == *self
                        &&& #[trigger] call_ensures(Self::handle, (call, key), answer)
                    };
                let calls_now = calls.push(call);
                let answers_now = answers.push(answer);
                assert(fail_fast(calls_now.len(), answers_now, calls_now.len()));
                assert(answers_now.map_values(|answer: Result<R, anyhow::Error>| answer->Ok_0)
                    =~= earlier.push(answer->Ok_0));
                if answer is Err {
                    assert(fail_fast(calls_now.len(), answers_now, keys@.len()));
                    assert(answers_now.last() == answer);
                }
            }
            match answer {
                Ok(response) => {
                    responses.push(response);
                },
                Err(e) => {
                    return Err(e);
                },
            }
        }
        Ok(responses)
    }
}

} // verus!
