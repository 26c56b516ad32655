//! Checkpoint files: how they are named, which of them is the newest, and
//! what the next one is called.
//!
//! A checkpoint's file name is `crawl_` and a number. The numbers only grow:
//! the next checkpoint gets the largest number in the directory plus one, so
//! no file is ever written over.

use crate::crawl::text::{
    chars_of, decimal_digits, has_prefix, lemma_parse_decimal_digits, parse_decimal, parse_number,
    push_decimal, starts_with, tail_of,
};
use crate::crawl::snapshot::{snapshot_decoding, snapshot_payloads};
use crate::crawl::visited::{distinct, SnapshotError, VisitedStore};
use vstd::prelude::*;

verus! {

/// What every checkpoint's file name begins with.
pub open spec fn name_prefix() -> Seq<char> {
    "crawl_"@
}

/// The name of the checkpoint file with number `n`.
pub open spec fn checkpoint_file_name(n: nat) -> Seq<char> {
    name_prefix() + decimal_digits(n)
}

/// The path of the checkpoint file with number `n` in `directory`.
pub open spec fn checkpoint_path(directory: Seq<char>, n: nat) -> Seq<char> {
    directory + "/"@ + checkpoint_file_name(n)
}

/// The number of the checkpoint that a file name names: what stands behind
/// `crawl_`, where that is a decimal number that fits in 32 bits (a `+`
/// before the digits is let through). `None` for any other name.
pub open spec fn crawl_number(file_name: Seq<char>) -> Option<int> {
    if has_prefix(file_name, name_prefix()) {
        parse_decimal(file_name.skip(name_prefix().len() as int), false, 0, u32::MAX as int)
    } else {
        None
    }
}

/// The largest checkpoint number among `file_names`; `None` where none of
/// them names a checkpoint.
pub open spec fn newest_number(file_names: Seq<Seq<char>>) -> Option<int>
    decreases file_names.len(),
{
    if file_names.len() == 0 {
        None
    } else {
        let before = newest_number(file_names.drop_last());
        match (before, crawl_number(file_names.last())) {
            (None, number) => number,
            (Some(largest), None) => Some(largest),
            (Some(largest), Some(number)) => if number > largest {
                Some(number)
            } else {
                Some(largest)
            },
        }
    }
}

/// Where the newest checkpoint stands in `file_names`: the first name with
/// the largest number. `None` where none of them names a checkpoint.
pub open spec fn newest_position(file_names: Seq<Seq<char>>) -> Option<int>
    decreases file_names.len(),
{
    if file_names.len() == 0 {
        None
    } else {
        let head = file_names.drop_last();
        match (newest_number(head), crawl_number(file_names.last())) {
            (None, None) => None,
            (None, Some(_)) => Some(file_names.len() - 1),
            (Some(_), None) => newest_position(head),
            (Some(largest), Some(number)) => if number > largest {
                Some(file_names.len() - 1)
            } else {
                newest_position(head)
            },
        }
    }
}

/// The number of the next checkpoint to write into a directory that holds
/// `file_names`: one more than the largest there, 1 for the first.
pub open spec fn next_number(file_names: Seq<Seq<char>>) -> int {
    match newest_number(file_names) {
        Some(largest) => largest + 1,
        None => 1,
    }
}

/// The newest number is the number of one of the files, and no file has a
/// larger one; there is none exactly where no file names a checkpoint.
pub proof fn lemma_newest_number(file_names: Seq<Seq<char>>)
    ensures
        match newest_number(file_names) {
            Some(largest) => {
                &&& 0 <= largest <= u32::MAX
                &&& exists|i: int|
                    0 <= i < file_names.len() && crawl_number(#[trigger] file_names[i]) == Some(
                        largest,
                    )
                &&& forall|i: int|
                    0 <= i < file_names.len() ==> (crawl_number(#[trigger] file_names[i]) matches Some(
                        number,
                    ) ==> number <= largest)
            },
            None => forall|i: int|
                0 <= i < file_names.len() ==> crawl_number(#[trigger] file_names[i]) is None,
        },
    decreases file_names.len(),
{
    if file_names.len() > 0 {
        let head = file_names.drop_last();
        lemma_newest_number(head);
        assert forall|i: int| 0 <= i < head.len() implies head[i] == file_names[i] by {}
    }
}

/// The newest checkpoint's position is that of the first file with the
/// largest number.
pub proof fn lemma_newest_position(file_names: Seq<Seq<char>>)
    ensures
        match newest_position(file_names) {
            Some(at) => {
                &&& 0 <= at < file_names.len()
                &&& crawl_number(file_names[at]) == newest_number(file_names)
                &&& forall|i: int|
                    0 <= i < at ==> crawl_number(#[trigger] file_names[i]) != newest_number(
                        file_names,
                    )
            },
            None => newest_number(file_names) is None,
        },
    decreases file_names.len(),
{
    if file_names.len() > 0 {
        let head = file_names.drop_last();
        lemma_newest_position(head);
        lemma_newest_number(head);
        assert forall|i: int| 0 <= i < head.len() implies head[i] == file_names[i] by {}
    }
}

/// A checkpoint's file name names its number: what is written is found.
pub proof fn lemma_name_names_number(n: nat)
    requires
        n <= u32::MAX,
    ensures
        crawl_number(checkpoint_file_name(n)) == Some(n as int),
{
    let name = checkpoint_file_name(n);
    let prefix = name_prefix();
    assert(name.subrange(0, prefix.len() as int) =~= prefix);
    assert(name.skip(prefix.len() as int) =~= decimal_digits(n));
    lemma_parse_decimal_digits(n, false, 0, u32::MAX as int);
}

/// The next checkpoint writes over nothing: its number is larger than that
/// of every file in the directory, and its name is the name of none of them.
pub proof fn lemma_next_name_is_new(file_names: Seq<Seq<char>>)
    requires
        next_number(file_names) <= u32::MAX,
    ensures
        next_number(file_names) >= 1,
        forall|i: int|
            0 <= i < file_names.len() ==> (crawl_number(#[trigger] file_names[i]) matches Some(
                number,
            ) ==> number < next_number(file_names)),
        !file_names.contains(checkpoint_file_name(next_number(file_names) as nat)),
{
    lemma_newest_number(file_names);
    let next = next_number(file_names);
    lemma_name_names_number(next as nat);
}

/// The number of the checkpoint that `file_name` names, if it names one.
pub fn parse_crawl_number(file_name: &str) -> (number: Option<u32>)
    ensures
        number == match crawl_number(file_name@) {
            Some(n) => Some(n as u32),
            None => None,
        },
{
    let name = chars_of(file_name);
    let prefix = chars_of("crawl_");
    if starts_with(&name, &prefix) {
        let digits = tail_of(&name, prefix.len());
        match parse_number(&digits, false, 0, u32::MAX as i64) {
            Some(n) => Some(n as u32),
            None => None,
        }
    } else {
        None
    }
}

/// Where the newest checkpoint stands in a directory's listing, and its
/// number.
pub fn newest_checkpoint(file_names: &Vec<String>) -> (newest: Option<(usize, u32)>)
    ensures
        match newest {
            Some((at, number)) => newest_position(file_names.deep_view()) == Some(at as int)
                && newest_number(file_names.deep_view()) == Some(number as int),
            None => newest_position(file_names.deep_view()) is None && newest_number(
                file_names.deep_view(),
            ) is None,
        },
{
    let mut newest: Option<(usize, u32)> = None;
    let mut i: usize = 0;
    while i < file_names.len()
        invariant
            i <= file_names.len(),
            match newest {
                Some((at, number)) => newest_position(file_names.deep_view().take(i as int))
                    == Some(at as int) && newest_number(file_names.deep_view().take(i as int))
                    == Some(number as int),
                None => newest_position(file_names.deep_view().take(i as int)) is None
                    && newest_number(file_names.deep_view().take(i as int)) is None,
            },
        decreases file_names.len() - i,
    {
        proof {
            let next = file_names.deep_view().take(i + 1);
            assert(next.drop_last() =~= file_names.deep_view().take(i as int));
        }
        match parse_crawl_number(file_names[i].as_str()) {
            Some(number) => {
                let larger = match newest {
                    Some((_, largest)) => number > largest,
                    None => true,
                };
                if larger {
                    newest = Some((i, number));
                }
            },
            None => {},
        }
        i += 1;
    }
    assert(file_names.deep_view().take(i as int) =~= file_names.deep_view());
    newest
}

/// The path of the next checkpoint to write into `directory`, which holds
/// the files `file_names`. There is none once the largest number that a
/// name can hold is taken.
pub fn get_next_crawler_checkpoint_name(directory: &str, file_names: &Vec<String>) -> (path: Option<
    String,
>)
    ensures
        match path {
            Some(path) => next_number(file_names.deep_view()) <= u32::MAX && path@
                == checkpoint_path(directory@, next_number(file_names.deep_view()) as nat),
            None => next_number(file_names.deep_view()) > u32::MAX,
        },
{
    let largest: u32 = match newest_checkpoint(file_names) {
        Some((_, number)) => number,
        None => 0,
    };
    if largest == u32::MAX {
        return None;
    }
    let mut path = String::from_str(directory);
    path.append("/");
    path.append("crawl_");
    push_decimal(&mut path, (largest + 1) as u64);
    Some(path)
}

/// Why a run starts without the pages of an earlier one.
#[derive(Clone, Copy, Debug, PartialEq, Eq, Structural)]
pub enum ResumeError {
    /// There is no earlier checkpoint.
    NoPriorCheckpoint,
    /// The newest checkpoint cannot be read.
    CorruptCheckpoint(SnapshotError),
}

/// The store to go on with, given the bytes of the newest checkpoint, or
/// that there is none.
pub fn resume(snapshot: Option<&[u8]>) -> (loaded: Result<VisitedStore, ResumeError>)
    ensures
        match snapshot {
            None => loaded matches Err(error) && error == ResumeError::NoPriorCheckpoint,
            Some(bytes) => match snapshot_decoding(bytes@) {
                Some(urls) => loaded matches Ok(store) && store.wf() && store@ == urls.to_set()
                    && store.order() == distinct(urls),
                None => loaded matches Err(error) && error == ResumeError::CorruptCheckpoint(
                    if snapshot_payloads(bytes@) is None {
                        SnapshotError::BadFraming
                    } else {
                        SnapshotError::BadText
                    },
                ),
            },
        },
{
    match snapshot {
        None => Err(ResumeError::NoPriorCheckpoint),
        Some(bytes) => match VisitedStore::deserialize(bytes) {
            Ok(store) => Ok(store),
            Err(error) => Err(ResumeError::CorruptCheckpoint(error)),
        },
    }
}

} // verus!
