//! The decisions of the staging phase: whether a file is migrated, what is
//! done to it, and the tally of what was done.
use crate::text::{decimal_text, unsigned_decimal};
use vstd::prelude::*;
use vstd::string::{StringExecFns, StringSliceAdditionalSpecFns};

verus! {

/// The CRC-32 of `bytes`, as the `crc32fast` crate computes it.
pub uninterp spec fn crc32(bytes: Seq<u8>) -> u32;

/// Feeds `bytes` to a `crc32fast::Hasher` and finalizes it. Trusted: the
/// checksum depends on the bytes alone.
#[verifier::external_body]
fn crc32_of(bytes: &[u8]) -> (r: u32)
    ensures
        r == crc32(bytes@),
{
    let mut hasher = crc32fast::Hasher::new();
    hasher.update(bytes);
    hasher.finalize()
}

/// The CRC-32 of the content of a file.
pub fn checksum(content: &[u8]) -> (r: u32)
    ensures
        r == crc32(content@),
{
    crc32_of(content)
}

/// What the decision looks at in a file: its length, when it was last
/// modified (seconds and nanoseconds since the Unix epoch), and, in
/// checksum mode, the CRC-32 of its content.
#[derive(Clone, Copy, Debug, PartialEq, Eq, Structural)]
pub struct FileStamp {
    pub length: u64,
    pub modified_seconds: i64,
    pub modified_nanoseconds: u32,
    pub checksum: u32,
}

/// What became of one file.
#[derive(Clone, Copy, Debug, PartialEq, Eq, Structural)]
pub enum MigrationResult {
    /// It was written where nothing stood.
    Migrated,
    /// It was written over what stood there.
    Updated,
    /// It was left alone.
    Skipped,
}

/// What is to be done to one file.
#[derive(Clone, Copy, Debug, PartialEq, Eq, Structural)]
pub enum MigrationAction {
    /// Nothing.
    Leave,
    /// Copy the source and give the copy the time of the source's last
    /// modification.
    Copy,
    /// Rename the source; where that fails, copy it.
    Move,
    /// Write the content.
    Write,
}

/// Whether a file is migrated: always where nothing stands at the
/// destination; else, in checksum mode, where the checksums differ; else
/// where length or time of last modification differ.
pub open spec fn file_differs(source: FileStamp, destination: Option<FileStamp>, by_checksum: bool) -> bool {
    match destination {
        None => true,
        Some(there) => if by_checksum {
            source.checksum != there.checksum
        } else {
            source.length != there.length || source.modified_seconds != there.modified_seconds
                || source.modified_nanoseconds != there.modified_nanoseconds
        },
    }
}

/// Whether a content is migrated: always where nothing stands at the
/// destination; else, in checksum mode, where the checksums differ; else
/// where the lengths in bytes differ.
pub open spec fn content_differs(content: Seq<u8>, destination: Option<FileStamp>, by_checksum: bool) -> bool {
    match destination {
        None => true,
        Some(there) => if by_checksum {
            crc32(content) != there.checksum
        } else {
            content.len() != there.length
        },
    }
}

/// What became of a file that was, or was not, written to a destination
/// that was, or was not, there.
pub open spec fn result_of(written: bool, existed: bool) -> MigrationResult {
    if !written {
        MigrationResult::Skipped
    } else if existed {
        MigrationResult::Updated
    } else {
        MigrationResult::Migrated
    }
}

/// What is done to a file that differs, or does not.
pub open spec fn action_of(differs: bool, copy: bool) -> MigrationAction {
    if !differs {
        MigrationAction::Leave
    } else if copy {
        MigrationAction::Copy
    } else {
        MigrationAction::Move
    }
}

/// What stands at the destination once the action has been carried out:
/// the source's stamp where it was written, else what stood there.
pub open spec fn stamp_after(source: FileStamp, destination: Option<FileStamp>, by_checksum: bool) -> FileStamp {
    if file_differs(source, destination, by_checksum) {
        source
    } else {
        destination->0
    }
}

/// Whether the file is migrated.
pub fn should_migrate_file(source: &FileStamp, destination: &Option<FileStamp>, checksum: bool) -> (r:
    bool)
    ensures
        r == file_differs(*source, *destination, checksum),
{
    match destination {
        None => true,
        Some(there) => if checksum {
            source.checksum != there.checksum
        } else {
            source.length != there.length || source.modified_seconds != there.modified_seconds
                || source.modified_nanoseconds != there.modified_nanoseconds
        },
    }
}

/// Whether the content is migrated.
pub fn should_migrate_content(content: &str, destination: &Option<FileStamp>, checksum: bool) -> (r:
    bool)
    ensures
        r == content_differs(content.spec_bytes(), *destination, checksum),
{
    match destination {
        None => true,
        Some(there) => if checksum {
            crc32_of(content.as_bytes()) != there.checksum
        } else {
            content.as_bytes().len() as u64 != there.length
        },
    }
}

/// What is done to a file, and what becomes of it if that succeeds: by
/// copy or by move where it differs from what stands at the destination.
pub fn migrate_file(source: &FileStamp, destination: &Option<FileStamp>, copy: bool, checksum: bool) -> (r:
    (MigrationAction, MigrationResult))
    ensures
        r.0 == action_of(file_differs(*source, *destination, checksum), copy),
        r.1 == result_of(file_differs(*source, *destination, checksum), destination is Some),
{
    if should_migrate_file(source, destination, checksum) {
        let action = if copy {
            MigrationAction::Copy
        } else {
            MigrationAction::Move
        };
        let result = if destination.is_some() {
            MigrationResult::Updated
        } else {
            MigrationResult::Migrated
        };
        (action, result)
    } else {
        (MigrationAction::Leave, MigrationResult::Skipped)
    }
}

/// What is done to a content, and what becomes of it if that succeeds.
pub fn migrate_content(content: &str, destination: &Option<FileStamp>, checksum: bool) -> (r: (
    MigrationAction,
    MigrationResult,
))
    ensures
        r.0 == if content_differs(content.spec_bytes(), *destination, checksum) {
            MigrationAction::Write
        } else {
            MigrationAction::Leave
        },
        r.1 == result_of(
            content_differs(content.spec_bytes(), *destination, checksum),
            destination is Some,
        ),
{
    if should_migrate_content(content, destination, checksum) {
        let result = if destination.is_some() {
            MigrationResult::Updated
        } else {
            MigrationResult::Migrated
        };
        (MigrationAction::Write, result)
    } else {
        (MigrationAction::Leave, MigrationResult::Skipped)
    }
}

/// How many of the results are `kind`.
pub open spec fn count_of(results: Seq<MigrationResult>, kind: MigrationResult) -> nat
    decreases results.len(),
{
    if results.len() == 0 {
        0
    } else {
        count_of(results.drop_last(), kind) + if results.last() == kind {
            1nat
        } else {
            0nat
        }
    }
}

/// The counts of the three kinds add up to the number of results.
pub proof fn lemma_counts_add_up(results: Seq<MigrationResult>)
    ensures
        count_of(results, MigrationResult::Migrated) + count_of(results, MigrationResult::Updated)
            + count_of(results, MigrationResult::Skipped) == results.len(),
        count_of(results, MigrationResult::Migrated) <= results.len(),
        count_of(results, MigrationResult::Updated) <= results.len(),
        count_of(results, MigrationResult::Skipped) <= results.len(),
    decreases results.len(),
{
    if results.len() > 0 {
        lemma_counts_add_up(results.drop_last());
    }
}

/// The tally of a batch.
#[derive(Clone, Copy, Debug, Default, PartialEq, Eq)]
pub struct MigrationResults {
    pub total: usize,
    pub migrated: usize,
    pub updated: usize,
    pub skipped: usize,
}

impl MigrationResults {
    /// The tally says how many results there are and how many of each
    /// kind.
    pub open spec fn tallies(self, results: Seq<MigrationResult>) -> bool {
        &&& self.total == results.len()
        &&& self.migrated == count_of(results, MigrationResult::Migrated)
        &&& self.updated == count_of(results, MigrationResult::Updated)
        &&& self.skipped == count_of(results, MigrationResult::Skipped)
    }

    /// The tally of the given results.
    pub fn new(results: &[MigrationResult]) -> (r: MigrationResults)
        ensures
            r.tallies(results@),
            r.migrated + r.updated + r.skipped == r.total,
    {
        let mut summary = MigrationResults { total: results.len(), migrated: 0, updated: 0, skipped: 0 };
        let mut i: usize = 0;
        assert(results@.take(0) =~= Seq::empty());
        while i < results.len()
            invariant
                i <= results.len(),
                summary.total == results.len(),
                summary.migrated == count_of(results@.take(i as int), MigrationResult::Migrated),
                summary.updated == count_of(results@.take(i as int), MigrationResult::Updated),
                summary.skipped == count_of(results@.take(i as int), MigrationResult::Skipped),
            decreases results.len() - i,
        {
            proof {
                assert(results@.take(i + 1).drop_last() == results@.take(i as int));
                assert(results@.take(i + 1).last() == results@[i as int]);
                lemma_counts_add_up(results@.take(i as int));
            }
            match results[i] {
                MigrationResult::Migrated => {
                    summary.migrated += 1;
                },
                MigrationResult::Updated => {
                    summary.updated += 1;
                },
                MigrationResult::Skipped => {
                    summary.skipped += 1;
                },
            }
            i += 1;
        }
        proof {
            assert(results@.take(results.len() as int) == results@);
            lemma_counts_add_up(results@);
        }
        summary
    }

    /// The tally in words.
    pub open spec fn text(self) -> Seq<char> {
        "Total: "@ + decimal_text(self.total as int) + " (Migrated: "@ + decimal_text(
            self.migrated as int,
        ) + ", Updated: "@ + decimal_text(self.updated as int) + ", Skipped: "@ + decimal_text(
            self.skipped as int,
        ) + ")"@
    }

    /// The tally in words: `Total: 3 (Migrated: 1, Updated: 0, Skipped: 2)`.
    pub fn to_string(&self) -> (r: String)
        ensures
            r@ == self.text(),
    {
        let mut r = String::from_str("Total: ");
        r.append(unsigned_decimal(self.total as u64).as_str());
        r.append(" (Migrated: ");
        r.append(unsigned_decimal(self.migrated as u64).as_str());
        r.append(", Updated: ");
        r.append(unsigned_decimal(self.updated as u64).as_str());
        r.append(", Skipped: ");
        r.append(unsigned_decimal(self.skipped as u64).as_str());
        r.append(")");
        r
    }
}

/// A second run skips what the first run left: once a file has been
/// migrated, or was found the same, its destination holds a stamp that no
/// longer differs from the source, in the same mode.
pub proof fn lemma_second_run_skips(source: FileStamp, destination: Option<FileStamp>, by_checksum: bool)
    ensures
        !file_differs(source, Some(stamp_after(source, destination, by_checksum)), by_checksum),
        result_of(
            file_differs(source, Some(stamp_after(source, destination, by_checksum)), by_checksum),
            true,
        ) == MigrationResult::Skipped,
{
}

/// Where every file of a batch is skipped, the tally's `skipped` is its
/// `total`.
pub proof fn lemma_all_skipped(results: Seq<MigrationResult>, tally: MigrationResults)
    requires
        tally.tallies(results),
        forall|i: int| 0 <= i < results.len() ==> results[i] == MigrationResult::Skipped,
    ensures
        tally.skipped == tally.total,
        tally.migrated == 0,
        tally.updated == 0,
    decreases results.len(),
{
    if results.len() > 0 {
        let init = results.drop_last();
        let smaller = MigrationResults {
            total: init.len() as usize,
            migrated: count_of(init, MigrationResult::Migrated) as usize,
            updated: count_of(init, MigrationResult::Updated) as usize,
            skipped: count_of(init, MigrationResult::Skipped) as usize,
        };
        lemma_counts_add_up(init);
        lemma_all_skipped(init, smaller);
    }
}

/// A migration in checksum mode leaves at the destination a file with the
/// checksum of the source, whatever stood there before; so it does after a
/// migration in the default mode as it does alone.
pub proof fn lemma_checksum_mode_settles(source: FileStamp, destination: Option<FileStamp>)
    ensures
        stamp_after(source, destination, true).checksum == source.checksum,
        stamp_after(source, Some(stamp_after(source, destination, false)), true).checksum
            == stamp_after(source, destination, true).checksum,
{
}

} // verus!
