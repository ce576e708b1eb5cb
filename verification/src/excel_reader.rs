//! The workbook reader's decision logic: which paths the reader accepts.
//! Opening and decoding a workbook file is I/O and lives with the caller.

use vstd::prelude::*;
use vstd::string::StrSliceExecFns;

verus! {

/// Reader for spreadsheet workbook files.
pub struct ExcelReader;

impl ExcelReader {
    pub fn new() -> ExcelReader {
        ExcelReader
    }

    /// Whether the reader can handle this path: the final path component
    /// must carry the extension `xlsx`, compared without regard to ASCII
    /// case.
    pub fn supports(&self, file_path: &str) -> (r: bool)
        ensures
            r == spec_supports(file_path@),
    {
        let end = strip_end(file_path);
        let ghost t = file_path@.take(end as int);
        let dot = last_pos(file_path, end, '.');
        let slash = last_pos(file_path, end, '/');
        match dot {
            Option::None => false,
            Option::Some(d) => {
                let past_component = match slash {
                    Option::None => d > 0,
                    Option::Some(sp) => d > sp + 1,
                };
                if !past_component {
                    false
                } else if end - d - 1 == 4 {
                    let c0 = file_path.get_char(d + 1);
                    let c1 = file_path.get_char(d + 2);
                    let c2 = file_path.get_char(d + 3);
                    let c3 = file_path.get_char(d + 4);
                    proof {
                        assert(t.skip(d + 1).len() == end - d - 1);
                        assert(t.skip(d + 1)[0] == file_path@[d + 1]);
                        assert(t.skip(d + 1)[1] == file_path@[d + 2]);
                        assert(t.skip(d + 1)[2] == file_path@[d + 3]);
                        assert(t.skip(d + 1)[3] == file_path@[d + 4]);
                    }
                    (c0 == 'x' || c0 == 'X') && (c1 == 'l' || c1 == 'L') && (c2 == 's' || c2
                        == 'S') && (c3 == 'x' || c3 == 'X')
                } else {
                    proof {
                        assert(t.skip(d + 1).len() == end - d - 1);
                    }
                    false
                }
            },
        }
    }
}

impl Default for ExcelReader {
    fn default() -> ExcelReader {
        ExcelReader::new()
    }
}

/// The path with trailing slashes and trailing bare-dot components removed:
/// what remains once `/`, `/.`, and a lone `.` are peeled off the end, the
/// way a path's final component is found.
pub open spec fn trim_path_end(s: Seq<char>) -> Seq<char>
    decreases s.len(),
{
    if s.len() > 0 && s.last() == '/' {
        trim_path_end(s.drop_last())
    } else if s.len() == 1 && s.last() == '.' {
        Seq::empty()
    } else if s.len() >= 2 && s.last() == '.' && s[s.len() - 2] == '/' {
        trim_path_end(s.drop_last())
    } else {
        s
    }
}

/// The greatest position holding `c`, or minus one when none does.
pub open spec fn last_index_of(s: Seq<char>, c: char) -> int
    decreases s.len(),
{
    if s.len() == 0 {
        -1
    } else if s.last() == c {
        s.len() - 1
    } else {
        last_index_of(s.drop_last(), c)
    }
}

/// The four letters of the `xlsx` extension, in either ASCII case.
pub open spec fn is_xlsx_ext(e: Seq<char>) -> bool {
    e.len() == 4 && (e[0] == 'x' || e[0] == 'X') && (e[1] == 'l' || e[1] == 'L') && (e[2] == 's'
        || e[2] == 'S') && (e[3] == 'x' || e[3] == 'X')
}

/// Whether a path names a workbook file: after trailing slashes and bare-dot
/// components are dropped, the last dot must lie inside the final path
/// component, not as its first character, and what follows it must be `xlsx`
/// in either ASCII case.
pub open spec fn spec_supports(path: Seq<char>) -> bool {
    let t = trim_path_end(path);
    let slash = last_index_of(t, '/');
    let dot = last_index_of(t, '.');
    dot > slash + 1 && is_xlsx_ext(t.skip(dot + 1))
}

/// The length of the path once trailing slashes and bare-dot components are
/// dropped.
#[verifier::loop_isolation(false)]
fn strip_end(s: &str) -> (e: usize)
    ensures
        e <= s@.len(),
        trim_path_end(s@) == s@.take(e as int),
{
    let mut e: usize = s.unicode_len();
    proof {
        assert(s@.take(s@.len() as int) =~= s@);
    }
    while e > 0
        invariant
            e <= s@.len(),
            trim_path_end(s@) == trim_path_end(s@.take(e as int)),
        decreases e,
    {
        let c = s.get_char(e - 1);
        proof {
            assert(s@.take(e as int).last() == s@[e - 1]);
            assert(s@.take(e as int).drop_last() =~= s@.take(e as int - 1));
        }
        if c == '/' {
            e -= 1;
        } else if c == '.' && e == 1 {
            proof {
                assert(trim_path_end(s@.take(1)) =~= Seq::<char>::empty());
                assert(s@.take(0) =~= Seq::<char>::empty());
                assert(trim_path_end(Seq::<char>::empty()) =~= Seq::<char>::empty());
            }
            e -= 1;
        } else if c == '.' && s.get_char(e - 2) == '/' {
            proof {
                assert(s@.take(e as int)[e - 2] == s@[e - 2]);
            }
            e -= 1;
        } else {
            proof {
                if e >= 2 {
                    assert(s@.take(e as int)[e - 2] == s@[e - 2]);
                }
            }
            return e;
        }
    }
    proof {
        assert(s@.take(0) =~= Seq::<char>::empty());
    }
    e
}

/// The greatest position below `end` where `target` stands, if any.
#[verifier::loop_isolation(false)]
fn last_pos(s: &str, end: usize, target: char) -> (res: Option<usize>)
    requires
        end <= s@.len(),
    ensures
        match res {
            Option::Some(p) => p < end && last_index_of(s@.take(end as int), target) == p as int,
            Option::None => last_index_of(s@.take(end as int), target) == -1,
        },
{
    let mut k: usize = end;
    while k > 0
        invariant
            k <= end,
            last_index_of(s@.take(end as int), target) == last_index_of(
                s@.take(k as int),
                target,
            ),
        decreases k,
    {
        let c = s.get_char(k - 1);
        proof {
            assert(s@.take(k as int).last() == s@[k - 1]);
            assert(s@.take(k as int).drop_last() =~= s@.take(k as int - 1));
        }
        if c == target {
            return Option::Some(k - 1);
        }
        k -= 1;
    }
    proof {
        assert(s@.take(0) =~= Seq::<char>::empty());
    }
    Option::None
}

} // verus!
