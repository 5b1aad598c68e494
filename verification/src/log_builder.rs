use crate::clock_details::ClockDetails;
use crate::digital::Digital;
use crate::tag_id::TagID;
use crate::trace::{allocate as channels_of, Channel, Segment};
use vstd::prelude::*;
use vstd::string::to_string_from_display_ensures;

verus! {

/// What registers the channels of a trace before any sample is recorded.
/// Nothing is promised of an implementation: the library computes what to
/// register, and the caller hands it over.
pub trait LogBuilder {
    /// A builder for the channels below a name.
    type SubBuilder;

    /// A builder whose channels are named below `name`.
    fn scope(&self, name: &str) -> Self::SubBuilder;

    /// Issues the handle for a value of type `T` called `name`.
    fn tag<T: Digital>(&mut self, name: &str) -> TagID<T>;

    /// Registers one channel of `width` bits under the builder's name.
    fn allocate<T: Digital>(&self, tag: TagID<T>, width: usize);

    /// A builder whose channels are named below `name`.
    fn namespace(&self, name: &str) -> Self::SubBuilder;

    /// Registers a clock.
    fn add_clock(&mut self, clock: ClockDetails);

    /// Registers the clock that [`ClockDetails::simple`] describes: the
    /// builder is left as `add_clock` leaves it when it is handed that clock.
    fn add_simple_clock(&mut self, period_in_fs: u64) where Self: Sized
        ensures
            exists|m: &mut Self, clock: ClockDetails|
                mut_ref_current(m) == *old(self) && mut_ref_future(m) == *final(self)
                    && clock.is_simple(period_in_fs) && #[trigger] call_ensures(
                    Self::add_clock,
                    (m, clock),
                    (),
                ),
    {
        self.add_clock(ClockDetails::simple(period_in_fs));
    }
}

impl<T: LogBuilder> LogBuilder for &mut T {
    type SubBuilder = T::SubBuilder;

    /// What the borrowed builder's `scope` gives for the same name.
    fn scope(&self, name: &str) -> (r: Self::SubBuilder)
        ensures
            call_ensures(T::scope, (&mut_ref_current(*self), name), r),
    {
        (**self).scope(name)
    }

    fn tag<S: Digital>(&mut self, name: &str) -> TagID<S> {
        (**self).tag(name)
    }

    fn allocate<S: Digital>(&self, tag: TagID<S>, width: usize) {
        (**self).allocate(tag, width)
    }

    /// What the borrowed builder's `namespace` gives for the same name.
    fn namespace(&self, name: &str) -> (r: Self::SubBuilder)
        ensures
            call_ensures(T::namespace, (&mut_ref_current(*self), name), r),
    {
        (**self).namespace(name)
    }

    /// The borrowed builder is left as its `add_clock` leaves it when it is
    /// handed the same clock, and goes back to its owner as before.
    fn add_clock(&mut self, clock: ClockDetails)
        ensures
            mut_ref_future(*final(self)) == mut_ref_future(*old(self)),
            exists|m: &mut T|
                mut_ref_current(m) == **old(self) && mut_ref_future(m) == **final(self)
                    && #[trigger] call_ensures(T::add_clock, (m, clock), ()),
    {
        (**self).add_clock(clock)
    }
}

/// The text of one level of a channel name: a name as it is, a position as
/// `to_string` writes it.
pub fn segment_text(segment: &Segment) -> (r: String)
    ensures
        segment matches Segment::Name(name) ==> r@ == name@,
        segment matches Segment::Index(position) ==> to_string_from_display_ensures::<usize>(
            &position,
            r,
        ),
{
    match segment {
        Segment::Name(name) => name.clone(),
        Segment::Index(position) => position.to_string(),
    }
}

/// Registers `channel` with `builder`, below the levels of its name from
/// `depth` on.
pub fn register_below<T: Digital, B: LogBuilder<SubBuilder = B>>(
    tag: TagID<T>,
    builder: &B,
    channel: &Channel,
    depth: usize,
)
    requires
        depth <= channel.name@.len(),
    decreases channel.name@.len() - depth,
{
    if depth == channel.name.len() {
        builder.allocate(tag, channel.width);
    } else {
        let below = builder.namespace(segment_text(&channel.name[depth]).as_str());
        register_below(tag, &below, channel, depth + 1);
    }
}

/// Registers `channels` with `builder`: each under the namespaces that the
/// levels of its name open, with its width.
pub fn register<T: Digital, B: LogBuilder>(tag: TagID<T>, builder: &B, channels: &Vec<Channel>)
    where B::SubBuilder: LogBuilder<SubBuilder = B::SubBuilder>,
{
    let mut i: usize = 0;
    while i < channels.len()
        invariant
            i <= channels@.len(),
        decreases channels@.len() - i,
    {
        let channel = &channels[i];
        if channel.name.len() == 0 {
            builder.allocate(tag, channel.width);
        } else {
            let below = builder.namespace(segment_text(&channel.name[0]).as_str());
            register_below(tag, &below, channel, 1);
        }
        i += 1;
    }
}

/// Registers with `builder` the channels that trace a value of type `S`,
/// under the handle `tag`: those that [`crate::trace::allocate`] lists for
/// the kind that `S` names.
pub fn allocate<S: Digital, T: Digital, B: LogBuilder>(tag: TagID<T>, builder: &B)
    where B::SubBuilder: LogBuilder<SubBuilder = B::SubBuilder>,
{
    let kind = S::static_kind();
    let channels = channels_of(&kind);
    register(tag, builder, &channels);
}

} // verus!
