//! Starting the service.

use crate::record::{enabled, Level};
use crate::subscriber::Subscriber;
use vstd::prelude::*;

verus! {

/// The message that says where the service listens.
pub open spec fn running_message(address: Seq<char>) -> Seq<char> {
    "App running on http://"@ + address
}

/// Announces that the service is about to serve on `address`: raises an
/// event with [`running_message`] at the level of information, outside of
/// any scope and at the time that the clock shows. Serving itself is the
/// caller's part. Returns whether the event passed the filter.
pub fn run(subscriber: &mut Subscriber, address: &str) -> (announced: bool)
    ensures
        announced == enabled(old(subscriber)@.filter, Level::Info),
        old(subscriber)@.wf(),
        final(subscriber)@.wf(),
        exists|now: i64|
            final(subscriber)@ == #[trigger] old(subscriber)@.event(
                None,
                Level::Info,
                running_message(address@),
                now,
            ),
{
    let message = String::from_str("App running on http://").concat(address);
    let ghost text = message@;
    let announced = subscriber.announce(Level::Info, message);
    proof {
        let now = choose|now: i64|
            subscriber@ == #[trigger] old(subscriber)@.event(None, Level::Info, text, now);
        assert(subscriber@ == old(subscriber)@.event(
            None,
            Level::Info,
            running_message(address@),
            now,
        ));
    }
    announced
}

} // verus!
