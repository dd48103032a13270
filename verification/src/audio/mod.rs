pub mod analysis;
pub mod capture;

use vstd::prelude::*;

verus! {

/// A message from the audio worker to the visualiser; `F` is the analysed
/// audio features.
pub enum AudioMessage<F> {
    /// Features of the latest analysis window.
    Features(F),
    /// Capturing stopped for good, for the reason given.
    Failed(String),
    /// Switching the input failed; capturing goes on with the old input.
    SwitchFailed(String),
}

/// What a batch of worker messages means for the visualiser.
pub struct ReceivedAudio<F> {
    /// The newest features, unless capturing failed in the same batch.
    pub features: Option<F>,
    /// The newest capture failure.
    pub failure: Option<String>,
    /// The newest failed input switch.
    pub switch_failure: Option<String>,
}

/// The newest features in `messages`.
pub open spec fn newest_features<F>(messages: Seq<AudioMessage<F>>) -> Option<F>
    decreases messages.len(),
{
    if messages.len() == 0 {
        None
    } else {
        match messages.last() {
            AudioMessage::Features(features) => Some(features),
            _ => newest_features(messages.drop_last()),
        }
    }
}

/// The newest capture failure in `messages`.
pub open spec fn newest_failure<F>(messages: Seq<AudioMessage<F>>) -> Option<String>
    decreases messages.len(),
{
    if messages.len() == 0 {
        None
    } else {
        match messages.last() {
            AudioMessage::Failed(error) => Some(error),
            _ => newest_failure(messages.drop_last()),
        }
    }
}

/// The newest failed input switch in `messages`.
pub open spec fn newest_switch_failure<F>(messages: Seq<AudioMessage<F>>) -> Option<String>
    decreases messages.len(),
{
    if messages.len() == 0 {
        None
    } else {
        match messages.last() {
            AudioMessage::SwitchFailed(error) => Some(error),
            _ => newest_switch_failure(messages.drop_last()),
        }
    }
}

/// An empty batch holds no message of any kind.
pub proof fn lemma_newest_of_empty<F>()
    ensures
        newest_features(Seq::<AudioMessage<F>>::empty()) is None,
        newest_failure(Seq::<AudioMessage<F>>::empty()) is None,
        newest_switch_failure(Seq::<AudioMessage<F>>::empty()) is None,
{
}

/// A message that arrives after a batch is the newest of its kind, and
/// leaves the newest of each other kind as it was.
pub proof fn lemma_newest_after_message<F>(messages: Seq<AudioMessage<F>>, message: AudioMessage<F>)
    ensures
        newest_features(messages.push(message)) == match message {
            AudioMessage::Features(features) => Some(features),
            _ => newest_features(messages),
        },
        newest_failure(messages.push(message)) == match message {
            AudioMessage::Failed(error) => Some(error),
            _ => newest_failure(messages),
        },
        newest_switch_failure(messages.push(message)) == match message {
            AudioMessage::SwitchFailed(error) => Some(error),
            _ => newest_switch_failure(messages),
        },
{
    assert(messages.push(message).drop_last() =~= messages);
}

/// The newest features come from the last features message of the batch,
/// and there are none exactly when the batch holds no features message.
pub proof fn lemma_newest_features_is_last<F>(messages: Seq<AudioMessage<F>>)
    ensures
        newest_features(messages) is None <==> forall|i: int|
            0 <= i < messages.len() ==> !(#[trigger] messages[i] is Features),
        newest_features(messages) matches Some(features) ==> exists|i: int|
            0 <= i < messages.len() && #[trigger] messages[i] == AudioMessage::<F>::Features(
                features,
            ) && forall|j: int| i < j < messages.len() ==> !(#[trigger] messages[j] is Features),
    decreases messages.len(),
{
    if messages.len() > 0 {
        let earlier = messages.drop_last();
        let last_index = messages.len() - 1;
        lemma_newest_features_is_last(earlier);
        assert(forall|i: int| 0 <= i < earlier.len() ==> earlier[i] == messages[i]);
        if messages.last() is Features {
            assert(messages[last_index] is Features);
        } else if newest_features(earlier) is Some {
            let i = choose|i: int|
                0 <= i < earlier.len() && #[trigger] earlier[i] == AudioMessage::<F>::Features(
                    newest_features(earlier)->0,
                ) && forall|j: int| i < j < earlier.len() ==> !(#[trigger] earlier[j] is Features);
            assert(messages[i] == earlier[i]);
            assert forall|j: int| i < j < messages.len() implies !(
            #[trigger] messages[j] is Features) by {
                if j < last_index {
                    assert(earlier[j] == messages[j]);
                }
            }
        } else {
            assert forall|i: int| 0 <= i < messages.len() implies !(
            #[trigger] messages[i] is Features) by {
                if i < last_index {
                    assert(earlier[i] == messages[i]);
                }
            }
        }
    }
}

/// The newest capture failure is the last failure message of the batch, and
/// there is none exactly when the batch holds no failure message.
pub proof fn lemma_newest_failure_is_last<F>(messages: Seq<AudioMessage<F>>)
    ensures
        newest_failure(messages) is None <==> forall|i: int|
            0 <= i < messages.len() ==> !(#[trigger] messages[i] is Failed),
        newest_failure(messages) matches Some(error) ==> exists|i: int|
            0 <= i < messages.len() && #[trigger] messages[i] == AudioMessage::<F>::Failed(error)
                && forall|j: int| i < j < messages.len() ==> !(#[trigger] messages[j] is Failed),
    decreases messages.len(),
{
    if messages.len() > 0 {
        let earlier = messages.drop_last();
        let last_index = messages.len() - 1;
        lemma_newest_failure_is_last(earlier);
        assert(forall|i: int| 0 <= i < earlier.len() ==> earlier[i] == messages[i]);
        if messages.last() is Failed {
            assert(messages[last_index] is Failed);
        } else if newest_failure(earlier) is Some {
            let i = choose|i: int|
                0 <= i < earlier.len() && #[trigger] earlier[i] == AudioMessage::<F>::Failed(
                    newest_failure(earlier)->0,
                ) && forall|j: int| i < j < earlier.len() ==> !(#[trigger] earlier[j] is Failed);
            assert(messages[i] == earlier[i]);
            assert forall|j: int| i < j < messages.len() implies !(
            #[trigger] messages[j] is Failed) by {
                if j < last_index {
                    assert(earlier[j] == messages[j]);
                }
            }
        } else {
            assert forall|i: int| 0 <= i < messages.len() implies !(
            #[trigger] messages[i] is Failed) by {
                if i < last_index {
                    assert(earlier[i] == messages[i]);
                }
            }
        }
    }
}

/// The newest failed switch is the last switch-failure message of the batch,
/// and there is none exactly when the batch holds no such message.
pub proof fn lemma_newest_switch_failure_is_last<F>(messages: Seq<AudioMessage<F>>)
    ensures
        newest_switch_failure(messages) is None <==> forall|i: int|
            0 <= i < messages.len() ==> !(#[trigger] messages[i] is SwitchFailed),
        newest_switch_failure(messages) matches Some(error) ==> exists|i: int|
            0 <= i < messages.len() && #[trigger] messages[i] == AudioMessage::<F>::SwitchFailed(
                error,
            ) && forall|j: int|
                i < j < messages.len() ==> !(#[trigger] messages[j] is SwitchFailed),
    decreases messages.len(),
{
    if messages.len() > 0 {
        let earlier = messages.drop_last();
        let last_index = messages.len() - 1;
        lemma_newest_switch_failure_is_last(earlier);
        assert(forall|i: int| 0 <= i < earlier.len() ==> earlier[i] == messages[i]);
        if messages.last() is SwitchFailed {
            assert(messages[last_index] is SwitchFailed);
        } else if newest_switch_failure(earlier) is Some {
            let i = choose|i: int|
                0 <= i < earlier.len() && #[trigger] earlier[i]
                    == AudioMessage::<F>::SwitchFailed(newest_switch_failure(earlier)->0)
                    && forall|j: int|
                    i < j < earlier.len() ==> !(#[trigger] earlier[j] is SwitchFailed);
            assert(messages[i] == earlier[i]);
            assert forall|j: int| i < j < messages.len() implies !(
            #[trigger] messages[j] is SwitchFailed) by {
                if j < last_index {
                    assert(earlier[j] == messages[j]);
                }
            }
        } else {
            assert forall|i: int| 0 <= i < messages.len() implies !(
            #[trigger] messages[i] is SwitchFailed) by {
                if i < last_index {
                    assert(earlier[i] == messages[i]);
                }
            }
        }
    }
}

/// Keeps the newest message of each kind from a batch (oldest first); a
/// capture failure discards the features that came with it.
pub fn newest_messages<F>(messages: Vec<AudioMessage<F>>) -> (received: ReceivedAudio<F>)
    ensures
        received.failure == newest_failure(messages@),
        received.switch_failure == newest_switch_failure(messages@),
        received.features == if newest_failure(messages@) is Some {
            None
        } else {
            newest_features(messages@)
        },
        received.failure is None <==> forall|i: int|
            0 <= i < messages@.len() ==> !(#[trigger] messages@[i] is Failed),
        received.switch_failure is None <==> forall|i: int|
            0 <= i < messages@.len() ==> !(#[trigger] messages@[i] is SwitchFailed),
        received.features is Some <==> (received.failure is None && exists|i: int|
            0 <= i < messages@.len() && #[trigger] messages@[i] is Features),
{
    let ghost initial = messages@;
    let mut messages = messages;
    let mut features: Option<F> = None;
    let mut failure: Option<String> = None;
    let mut switch_failure: Option<String> = None;
    while messages.len() > 0
        invariant
            newest_features(initial) == if features is Some {
                features
            } else {
                newest_features(messages@)
            },
            newest_failure(initial) == if failure is Some {
                failure
            } else {
                newest_failure(messages@)
            },
            newest_switch_failure(initial) == if switch_failure is Some {
                switch_failure
            } else {
                newest_switch_failure(messages@)
            },
        decreases messages@.len(),
    {
        let ghost before = messages@;
        let message = messages.pop().unwrap();
        assert(messages@ =~= before.drop_last());
        match message {
            AudioMessage::Features(newer) => {
                if features.is_none() {
                    features = Some(newer);
                }
            },
            AudioMessage::Failed(error) => {
                if failure.is_none() {
                    failure = Some(error);
                }
            },
            AudioMessage::SwitchFailed(error) => {
                if switch_failure.is_none() {
                    switch_failure = Some(error);
                }
            },
        }
    }
    if failure.is_some() {
        features = None;
    }
    proof {
        lemma_newest_features_is_last(initial);
        lemma_newest_failure_is_last(initial);
        lemma_newest_switch_failure_is_last(initial);
    }
    ReceivedAudio { features, failure, switch_failure }
}

} // verus!
