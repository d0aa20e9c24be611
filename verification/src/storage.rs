//! The bookkeeping of the S3 storage backend: where objects live, the parts
//! of multipart uploads, and the check that a bucket exists before it is
//! written to.
use crate::text::push_char;
use vstd::prelude::*;

verus! {

/// Where an object is stored.
pub struct Location {
    pub bucket: String,
    pub path: String,
}

/// An uploaded part of a multipart upload and the ETag storage gave it.
pub struct PartETag {
    pub part_number: i64,
    pub etag: String,
}

/// Why the storage bookkeeping failed.
#[derive(Debug, Clone, Copy, PartialEq, Eq, Structural)]
pub enum StorageError {
    /// A part number does not fit in 32 bits.
    PartNumberOutOfRange,
    /// Storage answered an uploaded part without an ETag.
    MissingEtag,
}

/// `s` without any `c`.
pub open spec fn remove_char(s: Seq<char>, c: char) -> Seq<char>
    decreases s.len(),
{
    if s.len() == 0 {
        s
    } else if s.last() == c {
        remove_char(s.drop_last(), c)
    } else {
        remove_char(s.drop_last(), c).push(s.last())
    }
}

/// Removing `c` keeps every other character, in order: it is the sequence
/// filtered by "is not `c`". Where `c` does not occur, nothing changes.
pub proof fn lemma_remove_char_filters(s: Seq<char>, c: char)
    ensures
        remove_char(s, c) == s.filter(|x: char| x != c),
        (forall|i: int| 0 <= i < s.len() ==> s[i] != c) ==> remove_char(s, c) == s,
    decreases s.len(),
{
    reveal(Seq::filter);
    if s.len() > 0 {
        lemma_remove_char_filters(s.drop_last(), c);
        assert(s.drop_last().filter(|x: char| x != c) == remove_char(s.drop_last(), c));
        if forall|i: int| 0 <= i < s.len() ==> s[i] != c {
            assert forall|i: int| 0 <= i < s.drop_last().len() implies s.drop_last()[i] != c by {
                assert(s.drop_last()[i] == s[i]);
            }
            assert(s.drop_last().push(s.last()) =~= s);
        }
    }
}

/// `text` without any `-`, as `text.replace('-', "")` gives it.
pub fn remove_dashes(text: &str) -> (res: String)
    ensures
        res@ == remove_char(text@, '-'),
        res@ == text@.filter(|x: char| x != '-'),
{
    let len = text.unicode_len();
    let mut out = String::new();
    let mut i: usize = 0;
    while i < len
        invariant
            i <= len,
            len == text@.len(),
            out@ == remove_char(text@.take(i as int), '-'),
        decreases len - i,
    {
        let c = text.get_char(i);
        proof {
            assert(text@.take(i + 1).drop_last() =~= text@.take(i as int));
        }
        if c != '-' {
            push_char(&mut out, c);
        }
        i = i + 1;
    }
    proof {
        assert(text@.take(len as int) =~= text@);
        lemma_remove_char_filters(text@, '-');
    }
    out
}

/// Whether a part number fits in the 32 bits that storage takes.
pub open spec fn part_number_fits(n: i64) -> bool {
    i32::MIN <= n <= i32::MAX
}

/// The parts that complete a multipart upload: each part's number as a
/// 32-bit number and its ETag without dashes, in the order given. Fails at
/// the first part whose number does not fit.
pub fn completed_parts(parts: &Vec<PartETag>) -> (res: Result<Vec<(i32, String)>, StorageError>)
    ensures
        res is Ok <==> forall|i: int| 0 <= i < parts@.len() ==> part_number_fits(#[trigger] parts@[i].part_number),
        res matches Ok(done) ==> done@.len() == parts@.len() && forall|i: int| 0 <= i < parts@.len() ==> {
            &&& #[trigger] done@[i].0 == parts@[i].part_number
            &&& done@[i].1@ == remove_char(parts@[i].etag@, '-')
            &&& done@[i].1@ == parts@[i].etag@.filter(|x: char| x != '-')
        },
        res matches Err(e) ==> e == StorageError::PartNumberOutOfRange,
{
    let mut done: Vec<(i32, String)> = Vec::new();
    let mut i: usize = 0;
    while i < parts.len()
        invariant
            i <= parts@.len(),
            done@.len() == i,
            forall|j: int| 0 <= j < i ==> part_number_fits(#[trigger] parts@[j].part_number),
            forall|j: int| 0 <= j < i ==> {
                &&& #[trigger] done@[j].0 == parts@[j].part_number
                &&& done@[j].1@ == remove_char(parts@[j].etag@, '-')
                &&& done@[j].1@ == parts@[j].etag@.filter(|x: char| x != '-')
            },
        decreases parts@.len() - i,
    {
        let part = &parts[i];
        if part.part_number < i32::MIN as i64 || part.part_number > i32::MAX as i64 {
            return Err(StorageError::PartNumberOutOfRange);
        }
        let etag = remove_dashes(part.etag.as_str());
        done.push((part.part_number as i32, etag));
        i = i + 1;
    }
    Ok(done)
}

impl PartETag {
    /// The record of an uploaded part, from the part's number and the ETag
    /// that storage answered with.
    pub fn from_upload(part_number: i32, e_tag: Option<String>) -> (res: Result<PartETag, StorageError>)
        ensures
            res is Ok <==> e_tag is Some,
            res matches Ok(p) ==> p.part_number == part_number as i64 && Some(p.etag) == e_tag,
            res matches Err(e) ==> e == StorageError::MissingEtag,
    {
        match e_tag {
            Some(etag) => Ok(PartETag { part_number: part_number as i64, etag }),
            None => Err(StorageError::MissingEtag),
        }
    }
}

/// Where the check that a bucket exists stands: the bucket's location is
/// looked up first; only where that fails is the bucket created; the check
/// ends with the outcome.
pub enum BucketCheck {
    /// The location of the bucket is to be looked up.
    LookUp,
    /// The bucket is to be created.
    Create,
    /// The check is over, with this outcome.
    Done(Result<(), String>),
}

/// The step after `state` once its request answered `outcome`.
pub open spec fn bucket_check_next(state: BucketCheck, outcome: Result<(), String>) -> BucketCheck {
    match state {
        BucketCheck::LookUp => match outcome {
            Ok(()) => BucketCheck::Done(Ok(())),
            Err(_) => BucketCheck::Create,
        },
        BucketCheck::Create => BucketCheck::Done(outcome),
        BucketCheck::Done(r) => BucketCheck::Done(r),
    }
}

impl BucketCheck {
    /// The check of a bucket starts with looking up its location.
    pub fn start() -> (res: BucketCheck)
        ensures
            res is LookUp,
    {
        BucketCheck::LookUp
    }

    /// The step after this one, given how its request went: a found bucket
    /// is done with; a missing one is created, and the creation's outcome
    /// ends the check. A finished check stays as it is.
    pub fn next(self, outcome: Result<(), String>) -> (res: BucketCheck)
        ensures
            res == bucket_check_next(self, outcome),
    {
        match self {
            BucketCheck::LookUp => match outcome {
                Ok(()) => BucketCheck::Done(Ok(())),
                Err(_) => BucketCheck::Create,
            },
            BucketCheck::Create => BucketCheck::Done(outcome),
            BucketCheck::Done(r) => BucketCheck::Done(r),
        }
    }
}

/// The check of a bucket ends after at most two requests; it fails only
/// where the lookup failed and then the creation failed, with the creation's
/// error; and a bucket whose lookup succeeds is never created.
pub proof fn lemma_bucket_check_ends(lookup: Result<(), String>, create: Result<(), String>)
    ensures
        ({
            let s1 = bucket_check_next(BucketCheck::LookUp, lookup);
            let s2 = if s1 is Done { s1 } else { bucket_check_next(s1, create) };
            &&& s2 is Done
            &&& lookup is Ok ==> s1 == BucketCheck::Done(Ok(()))
            &&& lookup is Err ==> s1 is Create && s2 == BucketCheck::Done(create)
            &&& (s2 matches BucketCheck::Done(Err(e)) ==> lookup is Err && create == Err::<(), String>(e))
        }),
{
}

} // verus!
