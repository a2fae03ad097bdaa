//! Modifier remaps from a configuration.

use vstd::prelude::*;

verus! {

/// An entry of the configuration that is no modifier remap.
#[derive(Debug)]
pub struct ModifierRemapConfigError {
    pub entry: String,
    /// What is wrong with it.
    pub source: String,
}

/// Position of the first entry that could not be read, or the length where all could.
pub open spec fn first_failed(readings: Seq<(String, Result<(), String>)>) -> int
    decreases readings.len(),
{
    if readings.len() == 0 {
        0
    } else if readings[0].1 is Err {
        0
    } else {
        1 + first_failed(readings.drop_first())
    }
}

/// Whether a list of remaps can be used: the first entry that could not be read is reported.
pub fn resolve_modifier_remaps(readings: &[(String, Result<(), String>)]) -> (out: Result<
    (),
    ModifierRemapConfigError,
>)
    ensures
        ({
            let at = first_failed(readings@);
            if at >= readings@.len() {
                out is Ok
            } else {
                out matches Err(error) && error.entry == readings@[at].0 && readings@[at].1 == Err::<
                    (),
                    String,
                >(error.source)
            }
        }),
{
    let mut i: usize = 0;
    assert(readings@.skip(0) =~= readings@);
    while i < readings.len()
        invariant
            i <= readings@.len(),
            first_failed(readings@) == i + first_failed(readings@.skip(i as int)),
        decreases readings@.len() - i,
    {
        assert(readings@.skip(i as int).drop_first() =~= readings@.skip(i + 1));
        assert(readings@.skip(i as int)[0] == readings@[i as int]);
        match &readings[i].1 {
            Ok(_) => {},
            Err(message) => {
                return Err(
                    ModifierRemapConfigError {
                        entry: readings[i].0.clone(),
                        source: message.clone(),
                    },
                );
            },
        }
        i = i + 1;
    }
    Ok(())
}

/// The entry that is told of is the first that could not be read.
pub proof fn first_failed_is_first(readings: Seq<(String, Result<(), String>)>)
    ensures
        0 <= first_failed(readings) <= readings.len(),
        first_failed(readings) < readings.len() ==> readings[first_failed(readings)].1 is Err,
        forall|i: int| 0 <= i < first_failed(readings) ==> (#[trigger] readings[i]).1 is Ok,
    decreases readings.len(),
{
    if readings.len() > 0 && readings[0].1 is Ok {
        let rest = readings.drop_first();
        first_failed_is_first(rest);
        assert forall|i: int| 0 <= i < first_failed(readings) implies (#[trigger] readings[i]).1
            is Ok by {
            if i > 0 {
                assert(readings[i] == rest[i - 1]);
            }
        }
    }
}

}
