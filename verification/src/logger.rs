use crate::bits::{from_bools, value_of};
use crate::digital::{checked_pair, Digital, Value};
use crate::kind::Kind;
use crate::tag_id::TagID;
use crate::trace::{
    marks, record as samples_of, samples, skip as skips_of, skips, slot_count, Mark, Sample,
};
use vstd::prelude::*;

verus! {

/// What takes the samples of a trace, channel by channel in the order in
/// which the channels were registered. Nothing is promised of an
/// implementation.
pub trait LoggerImpl {
    /// Gives the next channel the number that the bits of a scalar write.
    fn write_bits<T: Digital>(&mut self, tag: TagID<T>, value: u128);

    /// Gives the next channel one bit.
    fn write_bool<T: Digital>(&mut self, tag: TagID<T>, value: bool);

    /// Gives the next channel the name of a variant.
    fn write_string<T: Digital>(&mut self, tag: TagID<T>, value: &str);

    /// Tells the next channel that it has no new value.
    fn skip<T: Digital>(&mut self, tag: TagID<T>);

    /// Sets the time of the samples that follow, in femtoseconds.
    fn set_time_in_fs(&mut self, time: u64);
}

/// Whether every scalar among `samples` can be written as one number: none is
/// wider than 128 bits.
pub open spec fn writable(samples: Seq<Mark>) -> bool {
    forall|i: int|
        0 <= i < samples.len() ==> (#[trigger] samples[i] matches Mark::Bits(bits) ==> bits.len()
            <= 128)
}

/// Whether every scalar among `samples` can be written as one number.
pub fn is_writable(samples: &Vec<Sample>) -> (r: bool)
    ensures
        r == writable(marks(samples@)),
{
    let mut i: usize = 0;
    while i < samples.len()
        invariant
            i <= samples@.len(),
            forall|j: int|
                0 <= j < i ==> (#[trigger] marks(samples@)[j] matches Mark::Bits(bits)
                    ==> bits.len() <= 128),
        decreases samples@.len() - i,
    {
        match &samples[i] {
            Sample::Bits(bits) => {
                if bits.len() > 128 {
                    assert(marks(samples@)[i as int] == Mark::Bits(bits@));
                    return false;
                }
            },
            _ => {},
        }
        i += 1;
    }
    true
}

/// Hands `samples` to `logger`, one to each channel in order: a scalar as the
/// number that its bits write, a variant name as it is, a marker as a skip.
/// The logger goes through one state for each sample: from each state to the
/// next it is left as its own `write_bits`, `write_string` or `skip` leaves
/// it when it is handed the handle and that sample.
pub fn write_samples<T: Digital, L: LoggerImpl>(
    tag: TagID<T>,
    logger: &mut L,
    samples: &Vec<Sample>,
)
    requires
        writable(marks(samples@)),
    ensures
        exists|states: Seq<L>|
            #![trigger states[0]]
            {
                let given = marks(samples@);
                &&& states.len() == given.len() + 1
                &&& states[0] == *old(logger)
                &&& states[given.len() as int] == *final(logger)
                &&& forall|i: int|
                    #![trigger states[i]]
                    0 <= i < given.len() ==> {
                    ||| given[i] matches Mark::Bits(bits) && exists|m: &mut L|
                        mut_ref_current(m) == states[i] && mut_ref_future(m) == states[i + 1]
                            && #[trigger] call_ensures(
                            L::write_bits::<T>,
                            (m, tag, value_of(bits) as u128),
                            (),
                        )
                    ||| given[i] matches Mark::Symbol(name) && exists|m: &mut L, text: &str|
                        mut_ref_current(m) == states[i] && mut_ref_future(m) == states[i + 1]
                            && text@ == name && #[trigger] call_ensures(
                            L::write_string::<T>,
                            (m, tag, text),
                            (),
                        )
                    ||| given[i] is Skip && exists|m: &mut L|
                        mut_ref_current(m) == states[i] && mut_ref_future(m) == states[i + 1]
                            && #[trigger] call_ensures(L::skip::<T>, (m, tag), ())
                }
            },
{
    let ghost given = marks(samples@);
    let ghost mut states: Seq<L> = seq![*logger];
    let mut i: usize = 0;
    while i < samples.len()
        invariant
            i <= samples@.len(),
            given == marks(samples@),
            writable(given),
            states.len() == i + 1,
            states[0] == *old(logger),
            states[i as int] == *logger,
            forall|i: int|
                #![trigger states[i]]
                0 <= i < states.len() - 1 ==> {
                    ||| given[i] matches Mark::Bits(bits) && exists|m: &mut L|
                        mut_ref_current(m) == states[i] && mut_ref_future(m) == states[i + 1]
                            && #[trigger] call_ensures(
                            L::write_bits::<T>,
                            (m, tag, value_of(bits) as u128),
                            (),
                        )
                    ||| given[i] matches Mark::Symbol(name) && exists|m: &mut L, text: &str|
                        mut_ref_current(m) == states[i] && mut_ref_future(m) == states[i + 1]
                            && text@ == name && #[trigger] call_ensures(
                            L::write_string::<T>,
                            (m, tag, text),
                            (),
                        )
                    ||| given[i] is Skip && exists|m: &mut L|
                        mut_ref_current(m) == states[i] && mut_ref_future(m) == states[i + 1]
                            && #[trigger] call_ensures(L::skip::<T>, (m, tag), ())
                },
        decreases samples@.len() - i,
    {
        let ghost earlier = states;
        match &samples[i] {
            Sample::Bits(bits) => {
                assert(given[i as int] == Mark::Bits(bits@));
                logger.write_bits(tag, from_bools(bits));
            },
            Sample::Symbol(name) => {
                assert(given[i as int] == Mark::Symbol(name@));
                logger.write_string(tag, name.as_str());
            },
            Sample::Skip => {
                assert(given[i as int] is Skip);
                logger.skip(tag);
            },
        }
        proof {
            states = earlier.push(*logger);
            assert forall|j: int| 0 <= j < i implies #[trigger] states[j] == earlier[j]
                && states[j + 1] == earlier[j + 1] by {}
        }
        i += 1;
    }
}

/// Writes one sample of `value` to `logger`: what [`crate::trace::record`]
/// lists for it. Nothing is written, and the result is `false`, where the
/// value is not one of the kind that its type names, the kind is wider than
/// `usize` can count, or a scalar is wider than 128 bits.
pub fn record<S: Digital, T: Digital, L: LoggerImpl>(
    value: &S,
    tag: TagID<T>,
    logger: &mut L,
) -> (written: bool)
    ensures
        exists|kind: Kind, parts: Value|
            #![trigger
                call_ensures(S::static_kind, (), kind),
                call_ensures(S::value, (value,), parts)
            ]
            {
                let given = samples(kind@, parts@);
                &&& call_ensures(S::static_kind, (), kind)
                &&& call_ensures(S::value, (value,), parts)
                &&& written == (checked_pair(kind, parts) is Some && writable(given))
                &&& !written ==> *final(logger) == *old(logger)
                &&& written ==> exists|states: Seq<L>|
                    #![trigger states[0]]
                    {
                        &&& states.len() == given.len() + 1
                        &&& states[0] == *old(logger)
                        &&& states[given.len() as int] == *final(logger)
                        &&& forall|i: int|
                            #![trigger states[i]]
                            0 <= i < given.len() ==> {
                            ||| given[i] matches Mark::Bits(bits) && exists|m: &mut L|
                                mut_ref_current(m) == states[i] && mut_ref_future(m)
                                    == states[i + 1]
                                    && #[trigger] call_ensures(
                                    L::write_bits::<T>,
                                    (m, tag, value_of(bits) as u128),
                                    (),
                                )
                            ||| given[i] matches Mark::Symbol(name) && exists|m: &mut L, text: &str|
                                mut_ref_current(m) == states[i] && mut_ref_future(m)
                                    == states[i + 1]
                                    && text@ == name && #[trigger] call_ensures(
                                    L::write_string::<T>,
                                    (m, tag, text),
                                    (),
                                )
                            ||| given[i] is Skip && exists|m: &mut L|
                                mut_ref_current(m) == states[i] && mut_ref_future(m)
                                    == states[i + 1]
                                    && #[trigger] call_ensures(L::skip::<T>, (m, tag), ())
                        }
                    }
            },
{
    match value.typed() {
        Some((kind, parts)) => {
            let samples = samples_of(&kind, &parts);
            if is_writable(&samples) {
                write_samples(tag, logger, &samples);
                true
            } else {
                false
            }
        },
        None => false,
    }
}

/// Tells `logger` that no channel of a value of type `S` has a new value:
/// what [`crate::trace::skip`] lists for the kind that `S` names.
pub fn skip<S: Digital, T: Digital, L: LoggerImpl>(tag: TagID<T>, logger: &mut L)
    ensures
        exists|kind: Kind, states: Seq<L>|
            #![trigger call_ensures(S::static_kind, (), kind), states[0]]
            {
                &&& call_ensures(S::static_kind, (), kind)
                &&& states.len() == slot_count(kind@) + 1
                &&& states[0] == *old(logger)
                &&& states[slot_count(kind@) as int] == *final(logger)
                &&& forall|i: int|
                    #![trigger states[i]]
                    0 <= i < slot_count(kind@) ==> exists|m: &mut L|
                        mut_ref_current(m) == states[i] && mut_ref_future(m) == states[i + 1]
                            && #[trigger] call_ensures(L::skip::<T>, (m, tag), ())
            },
{
    let kind = S::static_kind();
    let samples = skips_of(&kind);
    write_samples(tag, logger, &samples);
}

} // verus!
