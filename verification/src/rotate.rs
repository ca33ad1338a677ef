//! Which of a bounded set of log files a session appends to.  Rotation files
//! are named by the base log name and a numeric generation suffix; below the
//! limit a session takes the next unused slot, at the limit it reuses the
//! slot of the file that was written to longest ago.

use vstd::prelude::*;

use crate::digits;
use vstd::slice::slice_to_vec;
use vstd::utf8::encode_utf8;

verus! {

/// What the rotation decision is given per directory entry: the file's name
/// and how many seconds ago it was last modified.
pub struct LogFile {
    pub name: Vec<u8>,
    pub age_secs: u64,
}

/// The bytes every rotation file's name begins with.
pub open spec fn rotation_prefix() -> Seq<u8> {
    encode_utf8("i3tracker.log."@)
}

/// Is `name` a rotation file's name: the base name, a dot, and a generation
/// index that fits the counter's width?
pub open spec fn is_log_name(name: Seq<u8>) -> bool {
    &&& name.len() > rotation_prefix().len()
    &&& name.take(rotation_prefix().len() as int) == rotation_prefix()
    &&& digits::all_digits(name.skip(rotation_prefix().len() as int))
    &&& digits::dec_value(name.skip(rotation_prefix().len() as int)) <= u32::MAX
}

/// The generation index a rotation file's name carries.
pub open spec fn rotation_index(name: Seq<u8>) -> nat {
    digits::dec_value(name.skip(rotation_prefix().len() as int))
}

/// The name of the rotation file with generation index `index`.
pub open spec fn log_name_spec(index: nat) -> Seq<u8> {
    rotation_prefix() + digits::dec_digits(index)
}

/// Writes the name of the rotation file with generation index `index`.
pub fn log_file_name(index: u32) -> (r: Vec<u8>)
    ensures
        r@ == log_name_spec(index as nat),
{
    let mut r: Vec<u8> = slice_to_vec("i3tracker.log.".as_bytes());
    let mut d: Vec<u8> = digits::u64_to_dec(index as u64);
    r.append(&mut d);
    r
}

/// A name the library wrote is recognised and carries its index back.
pub proof fn lemma_log_name_round_trip(index: u32)
    ensures
        is_log_name(log_name_spec(index as nat)),
        rotation_index(log_name_spec(index as nat)) == index,
{
    digits::lemma_dec_digits_wf(index as nat);
    digits::lemma_dec_value_of_digits(index as nat);
    let name = log_name_spec(index as nat);
    assert(name.take(rotation_prefix().len() as int) =~= rotation_prefix());
    assert(name.skip(rotation_prefix().len() as int) =~= digits::dec_digits(index as nat));
}

/// Reads a file name: the generation index when the name is a rotation
/// file's, nothing otherwise.
pub fn read_log_name(name: &Vec<u8>) -> (r: Option<u32>)
    ensures
        match r {
            Some(i) => is_log_name(name@) && i == rotation_index(name@),
            None => !is_log_name(name@),
        },
{
    let prefix: &[u8] = "i3tracker.log.".as_bytes();
    let plen: usize = prefix.len();
    if name.len() <= plen {
        return None;
    }
    let mut j: usize = 0;
    while j < plen
        invariant
            0 <= j <= plen == rotation_prefix().len(),
            prefix@ == rotation_prefix(),
            name@.len() > plen,
            forall|k: int| 0 <= k < j ==> name@[k] == rotation_prefix()[k],
        decreases plen - j,
    {
        if name[j] != prefix[j] {
            proof {
                assert(name@.take(plen as int)[j as int] != rotation_prefix()[j as int]);
            }
            return None;
        }
        j = j + 1;
    }
    proof {
        assert(name@.take(plen as int) =~= rotation_prefix());
    }
    let mut suffix: Vec<u8> = Vec::new();
    let mut i: usize = plen;
    while i < name.len()
        invariant
            plen <= i <= name@.len(),
            suffix@ =~= name@.subrange(plen as int, i as int),
        decreases name@.len() - i,
    {
        suffix.push(name[i]);
        proof {
            assert(suffix@ =~= name@.subrange(plen as int, i + 1));
        }
        i = i + 1;
    }
    proof {
        assert(suffix@ =~= name@.skip(plen as int));
    }
    digits::parse_u32(&suffix)
}

/// How many of the given entries are rotation files.
pub open spec fn match_count(files: Seq<LogFile>) -> nat
    decreases files.len(),
{
    if files.len() == 0 {
        0
    } else {
        match_count(files.drop_last()) + (if is_log_name(files.last().name@) {
            1nat
        } else {
            0nat
        })
    }
}

/// Entries counted as zero hold no rotation file.
proof fn lemma_match_count_zero(s: Seq<LogFile>)
    requires
        match_count(s) == 0,
    ensures
        forall|k: int| 0 <= k < s.len() ==> !is_log_name(#[trigger] s[k].name@),
    decreases s.len(),
{
    if s.len() > 0 {
        lemma_match_count_zero(s.drop_last());
        assert forall|k: int| 0 <= k < s.len() implies !is_log_name(#[trigger] s[k].name@) by {
            if k < s.len() - 1 {
                assert(s.drop_last()[k] == s[k]);
            }
        }
    }
}

/// Picks the generation index the session appends to.  Below the limit it is
/// the next unused slot — the count of rotation files present, so at most
/// `limit` distinct indices are ever produced this way.  At the limit it is
/// the index of the rotation file modified longest ago (the first such file
/// when several are equally old).  With no rotation file present and no room
/// for one, slot 0 is taken.
pub fn rotate(files: &Vec<LogFile>, limit: usize) -> (idx: u32)
    requires
        limit <= u32::MAX as usize,
    ensures
        match_count(files@) < limit ==> idx == match_count(files@) && idx < limit,
        match_count(files@) >= limit && match_count(files@) > 0 ==> exists|j: int|
            {
                &&& 0 <= j < files@.len()
                &&& is_log_name(#[trigger] files@[j].name@)
                &&& idx == rotation_index(files@[j].name@)
                &&& forall|k: int|
                    0 <= k < files@.len() && is_log_name(#[trigger] files@[k].name@)
                        ==> files@[k].age_secs <= files@[j].age_secs
                &&& forall|k: int|
                    0 <= k < j && is_log_name(#[trigger] files@[k].name@) ==> files@[k].age_secs
                        < files@[j].age_secs
            },
        match_count(files@) == 0 && limit == 0 ==> idx == 0,
{
    let mut count: usize = 0;
    let mut have: bool = false;
    let mut best_idx: u32 = 0;
    let mut best_age: u64 = 0;
    let ghost mut best_pos: int = 0;
    let mut i: usize = 0;
    while i < files.len()
        invariant
            0 <= i <= files@.len(),
            count == match_count(files@.take(i as int)),
            count <= i,
            have <==> count > 0,
            have ==> {
                &&& 0 <= best_pos < i
                &&& is_log_name(files@[best_pos].name@)
                &&& best_idx == rotation_index(files@[best_pos].name@)
                &&& best_age == files@[best_pos].age_secs
                &&& forall|k: int|
                    0 <= k < i && is_log_name(#[trigger] files@[k].name@) ==> files@[k].age_secs
                        <= best_age
                &&& forall|k: int|
                    0 <= k < best_pos && is_log_name(#[trigger] files@[k].name@)
                        ==> files@[k].age_secs < best_age
            },
        decreases files@.len() - i,
    {
        proof {
            assert(files@.take(i + 1).drop_last() =~= files@.take(i as int));
            assert(files@.take(i + 1).last() == files@[i as int]);
        }
        match read_log_name(&files[i].name) {
            Some(ridx) => {
                count = count + 1;
                if !have || files[i].age_secs > best_age {
                    proof {
                        if !have {
                            lemma_match_count_zero(files@.take(i as int));
                            assert forall|k: int| 0 <= k < i implies !is_log_name(
                                #[trigger] files@[k].name@,
                            ) by {
                                assert(files@.take(i as int)[k] == files@[k]);
                            }
                        }
                    }
                    have = true;
                    best_idx = ridx;
                    best_age = files[i].age_secs;
                    proof {
                        best_pos = i as int;
                    }
                }
            },
            None => {},
        }
        i = i + 1;
    }
    proof {
        assert(files@.take(files@.len() as int) =~= files@);
    }
    if count < limit {
        count as u32
    } else if have {
        best_idx
    } else {
        0
    }
}

} // verus!
