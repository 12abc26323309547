//! Setting up encryption, recovering keys, and what follows when keys arrive.

use vstd::prelude::*;
use crate::matrix::event::MatrixEvent;
use crate::matrix::room_cache::{RoomCache, RoomTimelineView};
use crate::text::{distinct, distinct_texts, views};

verus! {

/// How the cross-signing keys were set up at the first try.
pub enum Bootstrap {
    /// The account has them.
    Ready,
    /// The server wants the password, in this session.
    NeedsPassword { session: Option<String> },
    Failed,
}

/// How the setup goes on.
pub enum BootstrapStep {
    /// There is nothing more to do about the keys.
    Done,
    /// Try again with the password.
    Retry { username: String, password: String, session: Option<String> },
    /// The password is not known: tell the user.
    Report { event: MatrixEvent },
}

/// Decides how the setup goes on. The password is only known right after the user
/// typed it; a restored session does not have it.
pub fn bootstrap_step(result: Bootstrap, credentials: Option<(String, String)>) -> (r: BootstrapStep)
    ensures
        match result {
            Bootstrap::NeedsPassword { session } => match credentials {
                Some((username, password)) => r == (BootstrapStep::Retry {
                    username,
                    password,
                    session,
                }),
                None => r == (BootstrapStep::Report {
                    event: MatrixEvent::CrossSigningNeedsPassword,
                }),
            },
            _ => r is Done,
        },
{
    match result {
        Bootstrap::NeedsPassword { session } => match credentials {
            Some((username, password)) => BootstrapStep::Retry { username, password, session },
            None => BootstrapStep::Report { event: MatrixEvent::CrossSigningNeedsPassword },
        },
        _ => BootstrapStep::Done,
    }
}

/// What is reported once the setup is done: a missing key backup, and either that
/// new keys were made, or that the device is not verified.
pub fn setup_events(bootstrapped: bool, backup_enabled: bool, is_verified: bool) -> (r: Vec<
    MatrixEvent,
>)
    ensures
        r@ == (if backup_enabled {
            Seq::<MatrixEvent>::empty()
        } else {
            seq![MatrixEvent::BackupVersionMismatch]
        }) + (if bootstrapped {
            seq![MatrixEvent::CrossSigningBootstrapped]
        } else if !is_verified {
            seq![MatrixEvent::DeviceUnverified]
        } else {
            Seq::<MatrixEvent>::empty()
        }),
{
    let mut out: Vec<MatrixEvent> = Vec::new();
    if !backup_enabled {
        out.push(MatrixEvent::BackupVersionMismatch);
    }
    if bootstrapped {
        out.push(MatrixEvent::CrossSigningBootstrapped);
    } else if !is_verified {
        out.push(MatrixEvent::DeviceUnverified);
    }
    out
}

/// What is reported about a recovery. The flag says whether the keys of all
/// encrypted rooms are downloaded: when the backup is connected now.
pub fn finish_recovery(outcome: Result<bool, String>) -> (r: (MatrixEvent, bool))
    ensures
        match outcome {
            Ok(connected) => r == (
                (MatrixEvent::RecoveryComplete { backup_connected: connected }),
                connected,
            ),
            Err(why) => r == ((MatrixEvent::RecoveryFailed { error: why }), false),
        },
{
    match outcome {
        Ok(backup_connected) => (
            MatrixEvent::RecoveryComplete { backup_connected },
            backup_connected,
        ),
        Err(error) => (MatrixEvent::RecoveryFailed { error }, false),
    }
}

/// Takes in keys for all rooms: every timeline leaves memory, because messages in
/// it can be decrypted now.
pub fn all_keys_received(cache: &mut RoomCache) -> (r: MatrixEvent)
    ensures
        final(cache).memory() == Map::<Seq<char>, RoomTimelineView>::empty(),
        final(cache).refreshed() == old(cache).refreshed(),
        final(cache).members() == old(cache).members(),
        r matches MatrixEvent::RoomKeysReceived { room_ids } && room_ids@.len() == 0,
{
    cache.clear_memory();
    MatrixEvent::RoomKeysReceived { room_ids: Vec::new() }
}

/// What is reported about an import of keys from a file: how many were taken, and
/// that keys arrived.
pub fn finish_import(cache: &mut RoomCache, outcome: Result<(u64, u64), String>) -> (r: Vec<
    MatrixEvent,
>)
    ensures
        final(cache).refreshed() == old(cache).refreshed(),
        final(cache).members() == old(cache).members(),
        match outcome {
            Ok((imported, total)) => {
                &&& final(cache).memory() == Map::<Seq<char>, RoomTimelineView>::empty()
                &&& r@.len() == 2
                &&& r@[0] == (MatrixEvent::KeysImported { imported, total })
                &&& r@[1] matches MatrixEvent::RoomKeysReceived { room_ids }
                &&& room_ids@.len() == 0
            },
            Err(why) => {
                &&& final(cache).memory() == old(cache).memory()
                &&& r@ == seq![(MatrixEvent::KeyImportFailed { error: why })]
            },
        },
{
    let mut out: Vec<MatrixEvent> = Vec::new();
    match outcome {
        Ok((imported, total)) => {
            out.push(MatrixEvent::KeysImported { imported, total });
            out.push(all_keys_received(cache));
        },
        Err(error) => {
            out.push(MatrixEvent::KeyImportFailed { error });
        },
    }
    out
}

/// A map without the first `n` keys of a list.
pub open spec fn without_keys<V>(m: Map<Seq<char>, V>, keys: Seq<Seq<char>>, n: int) -> Map<
    Seq<char>,
    V,
>
    decreases n,
{
    if n <= 0 {
        m
    } else {
        without_keys(m, keys, n - 1).remove(keys[n - 1])
    }
}

/// Takes in keys for some rooms, one entry per key. These rooms are fetched anew,
/// so that their messages are decrypted. Nothing happens without keys.
pub fn keys_received(cache: &mut RoomCache, ids: &Vec<String>) -> (r: Option<MatrixEvent>)
    ensures
        final(cache).members() == old(cache).members(),
        r is Some <==> ids@.len() > 0,
        ({
            let rooms = distinct(views(ids@), ids@.len() as int);
            &&& final(cache).memory() == without_keys(
                old(cache).memory(),
                rooms,
                rooms.len() as int,
            )
            &&& final(cache).refreshed() == without_keys(
                old(cache).refreshed(),
                rooms,
                rooms.len() as int,
            )
            &&& r matches Some(event) ==> (event matches MatrixEvent::RoomKeysReceived { room_ids }
                && views(room_ids@) == rooms)
        }),
{
    let rooms = distinct_texts(ids);
    let ghost found = views(rooms@);
    let ghost memory = cache.memory();
    let ghost refreshed = cache.refreshed();
    let mut k: usize = 0;
    while k < rooms.len()
        invariant
            k <= rooms@.len(),
            found == views(rooms@),
            memory == old(cache).memory(),
            refreshed == old(cache).refreshed(),
            cache.memory() == without_keys(memory, found, k as int),
            cache.refreshed() == without_keys(refreshed, found, k as int),
            cache.members() == old(cache).members(),
        decreases rooms@.len() - k,
    {
        assert(found[k as int] == rooms@[k as int]@);
        cache.invalidate_room(&rooms[k]);
        k = k + 1;
    }
    if ids.len() == 0 {
        None
    } else {
        Some(MatrixEvent::RoomKeysReceived { room_ids: rooms })
    }
}

/// A room for which keys arrived is not shown from memory any more, and is not
/// taken for fresh.
pub proof fn law_keys_force_a_fetch<V>(m: Map<Seq<char>, V>, keys: Seq<Seq<char>>, n: int, i: int)
    requires
        0 <= i < n <= keys.len(),
    ensures
        !without_keys(m, keys, n).contains_key(keys[i]),
    decreases n,
{
    if i < n - 1 {
        law_keys_force_a_fetch(m, keys, n - 1, i);
    }
}

/// A missing backup is told of, new keys are told of, and a device that is not
/// verified is told of where no new keys were made.
pub proof fn law_setup_tells_what_is_missing(
    bootstrapped: bool,
    backup_enabled: bool,
    is_verified: bool,
    events: Vec<MatrixEvent>,
)
    requires
        call_ensures(setup_events, (bootstrapped, backup_enabled, is_verified), events),
    ensures
        events@.contains(MatrixEvent::BackupVersionMismatch) <==> !backup_enabled,
        events@.contains(MatrixEvent::CrossSigningBootstrapped) <==> bootstrapped,
        events@.contains(MatrixEvent::DeviceUnverified) <==> !bootstrapped && !is_verified,
{
    let b: int = if backup_enabled {
        0
    } else {
        1
    };
    if !backup_enabled {
        assert(events@[0] == MatrixEvent::BackupVersionMismatch);
    }
    if bootstrapped {
        assert(events@[b] == MatrixEvent::CrossSigningBootstrapped);
    } else if !is_verified {
        assert(events@[b] == MatrixEvent::DeviceUnverified);
    }
}

} // verus!
