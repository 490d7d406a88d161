//! Update checking: compare dotted version texts numerically.
//!
//! A version text splits on dots; segments that read as numbers are
//! compared position by position, with missing positions read as zero.
//! Segments that do not parse as numbers are ignored, so loosely shaped
//! release tags still compare by their numeric parts.

use vstd::prelude::*;
use crate::strutil::{parse_u32, parse_u32_of};

verus! {

/// What an update check reports.
#[derive(Debug)]
pub struct UpdateCheckResult {
    pub update_available: bool,
    pub latest_version: String,
    pub current_version: String,
    pub release_url: String,
    pub release_notes: String,
}

/// How long a cached update-check result stays fresh, in seconds.
pub const UPDATE_CACHE_SECS: i64 = 86400;

/// Whether a cached result from `last_checked_ts` is still fresh at
/// `now_ts` (both epoch seconds).
pub fn update_cache_fresh(now_ts: i64, last_checked_ts: i64) -> (r: bool)
    requires
        -1000000000000 <= now_ts <= 1000000000000,
        -1000000000000 <= last_checked_ts <= 1000000000000,
    ensures
        r == (now_ts - last_checked_ts < UPDATE_CACHE_SECS),
{
    now_ts - last_checked_ts < UPDATE_CACHE_SECS
}

/// A release tag with one leading `v` removed.
pub fn strip_v_prefix(tag: &str) -> (r: String)
    ensures
        tag@.len() > 0 && tag@[0] == 'v' ==> r@ == tag@.subrange(1, tag@.len() as int),
        !(tag@.len() > 0 && tag@[0] == 'v') ==> r@ == tag@,
{
    let n = tag.unicode_len();
    if n > 0 && tag.get_char(0) == 'v' {
        String::from_str(tag.substring_char(1, n))
    } else {
        String::from_str(tag)
    }
}

/// The dot-separated segments of a text. An empty text is one empty
/// segment, as splitting has it.
pub open spec fn split_dots(s: Seq<char>) -> Seq<Seq<char>>
    decreases s.len(),
{
    if s.len() == 0 {
        seq![Seq::empty()]
    } else {
        let rest = split_dots(s.drop_last());
        if s.last() == '.' {
            rest.push(Seq::empty())
        } else {
            rest.update(rest.len() - 1, rest.last().push(s.last()))
        }
    }
}

/// A split always has at least one segment.
proof fn lemma_split_dots_nonempty(s: Seq<char>)
    ensures
        split_dots(s).len() >= 1,
    decreases s.len(),
{
    if s.len() > 0 {
        lemma_split_dots_nonempty(s.drop_last());
    }
}

/// The numbers among a list of segments, in order.
pub open spec fn nums_of(parts: Seq<Seq<char>>) -> Seq<u32>
    decreases parts.len(),
{
    if parts.len() == 0 {
        Seq::empty()
    } else {
        nums_of(parts.drop_last()) + (match parse_u32_of(parts.last()) {
            Some(v) => seq![v],
            None => Seq::<u32>::empty(),
        })
    }
}

/// The numeric components of a dotted version text.
pub open spec fn version_nums_of(s: Seq<char>) -> Seq<u32> {
    nums_of(split_dots(s))
}

/// Whether `l` is numerically newer than `c` from position `i` on,
/// reading missing positions as zero.
pub open spec fn spec_newer_from(l: Seq<u32>, c: Seq<u32>, i: int) -> bool
    decreases (if l.len() > c.len() {
        l.len()
    } else {
        c.len()
    }) - i,
{
    if i >= l.len() && i >= c.len() {
        false
    } else {
        let lv: u32 = if i < l.len() {
            l[i]
        } else {
            0
        };
        let cv: u32 = if i < c.len() {
            c[i]
        } else {
            0
        };
        if lv > cv {
            true
        } else if lv < cv {
            false
        } else {
            spec_newer_from(l, c, i + 1)
        }
    }
}

/// Whether one dotted version text is numerically newer than another.
pub open spec fn spec_is_newer(latest: Seq<char>, current: Seq<char>) -> bool {
    spec_newer_from(version_nums_of(latest), version_nums_of(current), 0)
}

/// The numeric components of a dotted version text, executable form.
pub fn parse_version(s: &str) -> (r: Vec<u32>)
    ensures
        r@ == version_nums_of(s@),
{
    let n = s.unicode_len();
    let mut nums: Vec<u32> = Vec::new();
    let mut cur = String::new();
    proof {
        assert(s@.subrange(0, 0).len() == 0);
        assert(split_dots(s@.subrange(0, 0)) == seq![Seq::<char>::empty()]);
        assert(seq![Seq::<char>::empty()].drop_last() =~= Seq::<Seq<char>>::empty());
        assert(nums@ =~= nums_of(split_dots(s@.subrange(0, 0)).drop_last()));
    }
    let mut i: usize = 0;
    while i < n
        invariant
            n == s@.len(),
            i <= n,
            split_dots(s@.subrange(0, i as int)).len() >= 1,
            nums@ == nums_of(split_dots(s@.subrange(0, i as int)).drop_last()),
            cur@ == split_dots(s@.subrange(0, i as int)).last(),
        decreases n - i,
    {
        let ghost pre = s@.subrange(0, i as int);
        let ghost ext = s@.subrange(0, i + 1);
        proof {
            lemma_split_dots_nonempty(pre);
            lemma_split_dots_nonempty(ext);
            assert(ext.drop_last() =~= pre);
            assert(ext.last() == s@[i as int]);
        }
        let c = s.get_char(i);
        if c == '.' {
            proof {
                assert(split_dots(ext) == split_dots(pre).push(Seq::<char>::empty()));
                assert(split_dots(ext).drop_last() =~= split_dots(pre));
                assert(nums_of(split_dots(pre)) == nums_of(split_dots(pre).drop_last()) + (
                match parse_u32_of(cur@) {
                    Some(v) => seq![v],
                    None => Seq::<u32>::empty(),
                }));
            }
            match parse_u32(cur.as_str()) {
                Some(v) => {
                    nums.push(v);
                    proof {
                        assert(nums@ =~= nums_of(split_dots(ext).drop_last()));
                    }
                },
                None => {
                    proof {
                        assert(nums@ =~= nums_of(split_dots(ext).drop_last()));
                    }
                },
            }
            cur = String::new();
            proof {
                assert(cur@ =~= split_dots(ext).last());
            }
        } else {
            let piece = s.substring_char(i, i + 1);
            proof {
                assert(piece@ =~= seq![s@[i as int]]);
            }
            cur = cur.concat(piece);
            proof {
                let sd = split_dots(pre);
                assert(split_dots(ext) == sd.update(sd.len() - 1, sd.last().push(s@[i as int])));
                assert(split_dots(ext).drop_last() =~= sd.drop_last());
                assert(split_dots(ext).last() == sd.last().push(s@[i as int]));
                assert(cur@ =~= split_dots(ext).last());
            }
        }
        i = i + 1;
    }
    proof {
        assert(s@.subrange(0, n as int) =~= s@);
        lemma_split_dots_nonempty(s@);
        assert(version_nums_of(s@) == nums_of(split_dots(s@).drop_last()) + (match parse_u32_of(
            split_dots(s@).last(),
        ) {
            Some(v) => seq![v],
            None => Seq::<u32>::empty(),
        }));
    }
    match parse_u32(cur.as_str()) {
        Some(v) => {
            nums.push(v);
            proof {
                assert(nums@ =~= version_nums_of(s@));
            }
        },
        None => {
            proof {
                assert(nums@ =~= version_nums_of(s@));
            }
        },
    }
    nums
}

/// Whether `latest` is numerically newer than `current`: the dotted
/// version texts are compared number by number, missing positions
/// reading as zero.
pub fn is_newer(latest: &str, current: &str) -> (r: bool)
    ensures
        r == spec_is_newer(latest@, current@),
{
    let l = parse_version(latest);
    let c = parse_version(current);
    let ln = l.len();
    let cn = c.len();
    let bound = if ln > cn {
        ln
    } else {
        cn
    };
    let mut i: usize = 0;
    while i < bound
        invariant
            ln == l@.len(),
            cn == c@.len(),
            bound == (if ln > cn {
                ln
            } else {
                cn
            }),
            i <= bound,
            l@ == version_nums_of(latest@),
            c@ == version_nums_of(current@),
            spec_is_newer(latest@, current@) == spec_newer_from(l@, c@, i as int),
        decreases bound - i,
    {
        let lv: u32 = if i < ln {
            l[i]
        } else {
            0
        };
        let cv: u32 = if i < cn {
            c[i]
        } else {
            0
        };
        if lv > cv {
            return true;
        }
        if lv < cv {
            return false;
        }
        i = i + 1;
    }
    false
}

} // verus!
