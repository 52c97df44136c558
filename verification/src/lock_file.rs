//! The lock file of a store, which names the engine that the store belongs to.
use vstd::prelude::*;

use crate::error::{KvsError, KvsErrorView};
use crate::kvstore::StoreType;
use crate::text::{blank, is_space, law_trimmed, same_text, trim, trimmed};

verus! {

/// The name of the lock file.
pub const LOCK_FILE_NAME: &'static str = "kvs.lock";

/// What to do about the marker in a lock file.
#[derive(Debug, Clone, Copy, PartialEq, Eq, Structural)]
pub enum MarkerAction {
    /// The file is fresh: write the name of the engine into it.
    Stamp,
    /// The file names this engine: leave it as it is.
    Keep,
}

/// What to do about the marker in a lock file, for an engine. A store that
/// belongs to another engine, or to something unknown, is refused.
pub open spec fn marker_action(marker: Seq<char>, engine: StoreType) -> Result<
    MarkerAction,
    KvsErrorView,
> {
    let found = trimmed(marker);
    if found.len() == 0 {
        Ok(MarkerAction::Stamp)
    } else if found == engine.name() {
        Ok(MarkerAction::Keep)
    } else {
        Err(KvsErrorView::EngineMismatch { found, requested: engine.name() })
    }
}

/// Decides what to do about the marker in a lock file.
pub fn check_marker(marker: &str, engine: StoreType) -> (res: Result<MarkerAction, KvsError>)
    ensures
        match marker_action(marker@, engine) {
            Ok(action) => res == Ok::<MarkerAction, KvsError>(action),
            Err(e) => res is Err && res->Err_0@ == e,
        },
{
    let found = trim(marker);
    if found.is_empty() {
        Ok(MarkerAction::Stamp)
    } else if same_text(found, engine.as_str()) {
        Ok(MarkerAction::Keep)
    } else {
        Err(
            KvsError::EngineMismatch {
                found: found.to_owned(),
                requested: engine.as_str().to_owned(),
            },
        )
    }
}

/// A lock file that was stamped for an engine is kept for that engine, and
/// refused for any other.
pub proof fn law_stamped(engine: StoreType, other: StoreType)
    ensures
        marker_action(engine.name(), engine) == Ok::<MarkerAction, KvsErrorView>(
            MarkerAction::Keep,
        ),
        other != engine ==> marker_action(engine.name(), other) == Err::<
            MarkerAction,
            KvsErrorView,
        >(KvsErrorView::EngineMismatch { found: engine.name(), requested: other.name() }),
{
    reveal_strlit("bitcask");
    reveal_strlit("sled");
    let name = engine.name();
    assert(trimmed(name) =~= name);
    assert("bitcask"@.len() != "sled"@.len());
}

/// What a lock file decides, whatever white space is around its marker: a blank
/// one is stamped, one that names the engine is kept, and any other is refused
/// with what it names.
pub proof fn law_marker(
    marker: &str,
    pad: Seq<char>,
    text: Seq<char>,
    end_pad: Seq<char>,
    engine: StoreType,
    res: Result<MarkerAction, KvsError>,
)
    requires
        call_ensures(check_marker, (marker, engine), res),
        blank(pad),
        blank(end_pad),
        text.len() > 0 ==> !is_space(text[0]) && !is_space(text.last()),
        marker@ == pad + text + end_pad,
    ensures
        res == Ok::<MarkerAction, KvsError>(MarkerAction::Stamp) <==> text.len() == 0,
        res == Ok::<MarkerAction, KvsError>(MarkerAction::Keep) <==> text == engine.name(),
        res is Err <==> text.len() > 0 && text != engine.name(),
        res is Err ==> res->Err_0@ == (KvsErrorView::EngineMismatch {
            found: text,
            requested: engine.name(),
        }),
{
    reveal_strlit("bitcask");
    reveal_strlit("sled");
    law_trimmed(pad, text, end_pad);
}

} // verus!
