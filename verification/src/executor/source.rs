//! Where in the workload file an error comes from.

use vstd::prelude::*;

use crate::phase_outcome;
use crate::phase_outcome::Outcome;
use crate::text;
use crate::text::{cat2, cat7, starts_with, u64_text};

verus! {

/// The text of a workload file and where it was read.
#[derive(Debug, Clone, PartialEq)]
pub struct WorkloadSource {
    pub path: String,
    pub text: String,
}

/// `needle` stands in `hay` at position `i`.
pub open spec fn occurs(hay: Seq<u8>, needle: Seq<u8>, i: int) -> bool {
    0 <= i && i + needle.len() <= hay.len() && hay.subrange(i, i + needle.len()) == needle
}

/// The bytes of `b` that are newlines.
pub open spec fn newlines(b: Seq<u8>) -> nat
    decreases b.len(),
{
    if b.len() == 0 {
        0
    } else {
        newlines(b.drop_last()) + (if b.last() == 10u8 {
            1nat
        } else {
            0
        })
    }
}

/// How many bytes follow the last newline of `b`.
pub open spec fn line_tail(b: Seq<u8>) -> nat
    decreases b.len(),
{
    if b.len() == 0 || b.last() == 10u8 {
        0
    } else {
        line_tail(b.drop_last()) + 1
    }
}

/// The line and the column, both counted from one and the column in bytes, of
/// the byte at `i`.
pub open spec fn position_at(hay: Seq<u8>, i: int) -> (nat, nat) {
    (newlines(hay.take(i)) + 1, line_tail(hay.take(i)) + 1)
}

fn bytes_at(hay: &[u8], needle: &[u8], i: usize) -> (r: bool)
    requires
        i + needle@.len() <= hay@.len(),
    ensures
        r == occurs(hay@, needle@, i as int),
{
    let mut k: usize = 0;
    let n: usize = hay.len();
    while k < needle.len()
        invariant
            k <= needle@.len(),
            n == hay@.len(),
            i + needle@.len() <= hay@.len(),
            forall|j: int| 0 <= j < k ==> hay@[i + j] == needle@[j],
        decreases needle@.len() - k,
    {
        if hay[i + k] != needle[k] {
            assert(hay@.subrange(i as int, i + needle@.len())[k as int] != needle@[k as int]);
            return false;
        }
        k += 1;
    }
    assert(hay@.subrange(i as int, i + needle@.len()) =~= needle@);
    true
}

/// The first position from `i` on at which `needle` stands in `hay`.
pub open spec fn find_from(hay: Seq<u8>, needle: Seq<u8>, i: int) -> Option<int>
    decreases hay.len() + 1 - i,
{
    if i < 0 || i + needle.len() > hay.len() {
        None
    } else if occurs(hay, needle, i) {
        Some(i)
    } else {
        find_from(hay, needle, i + 1)
    }
}

/// The UTF-8 bytes of a text.
pub open spec fn utf8(s: Seq<char>) -> Seq<u8> {
    vstd::utf8::encode_utf8(s)
}

/// The line and column of the first occurrence of `needle` in `text`.
pub open spec fn located(text: Seq<char>, needle: Seq<char>) -> Option<(nat, nat)> {
    match find_from(utf8(text), utf8(needle), 0) {
        Some(i) => Some(position_at(utf8(text), i)),
        None => None,
    }
}

impl WorkloadSource {
    /// The line and column of the first occurrence of `needle` in the text.
    pub fn locate(&self, needle: &str) -> (r: Option<(usize, usize)>)
        ensures
            r is Some <==> located(self.text@, needle@) is Some,
            r matches Some(p) ==> located(self.text@, needle@) == Some((p.0 as nat, p.1 as nat)),
    {
        let hay = self.text.as_str().as_bytes();
        let pat = needle.as_bytes();
        let n: usize = hay.len();
        let mut i: usize = 0;
        let mut breaks: usize = 0;
        let mut tail: usize = 0;
        assert(hay@.take(0) =~= Seq::<u8>::empty());
        while n - i >= pat.len()
            invariant
                n == hay@.len(),
                i <= n,
                pat@.len() == 0 ==> i == 0,
                hay@ == utf8(self.text@),
                pat@ == utf8(needle@),
                find_from(hay@, pat@, 0) == find_from(hay@, pat@, i as int),
                breaks == newlines(hay@.take(i as int)),
                tail == line_tail(hay@.take(i as int)),
                breaks <= i,
                tail <= i,
            decreases n - i,
        {
            if bytes_at(hay, pat, i) {
                return Some((breaks + 1, tail + 1));
            }
            assert(pat@.len() > 0) by {
                if pat@.len() == 0 {
                    assert(hay@.subrange(i as int, i as int) =~= pat@);
                }
            }
            assert(hay@.take(i + 1).drop_last() =~= hay@.take(i as int));
            if hay[i] == 10u8 {
                breaks += 1;
                tail = 0;
            } else {
                tail += 1;
            }
            i += 1;
        }
        None
    }
}

/// `err` with the place of `needle` in front, unless it has no known place or
/// already names one in this file.
pub open spec fn enriched(path: Seq<char>, text: Seq<char>, needle: Seq<char>, err: Seq<char>) -> Seq<
    char,
> {
    if (path + ":"@).is_prefix_of(err) {
        err
    } else {
        match located(text, needle) {
            Some(p) => path + ":"@ + text::decimal(p.0) + ":"@ + text::decimal(p.1)
                + ": "@ + err,
            None => err,
        }
    }
}

/// An error with its place in the workload file in front, where one is known.
pub fn enrich_with_yaml_location(source: &Option<WorkloadSource>, needle: &str, err: String) -> (r:
    String)
    ensures
        r@ == (match source {
            Some(src) => enriched(src.path@, src.text@, needle@, err@),
            None => err@,
        }),
{
    match source {
        None => err,
        Some(src) => {
            if starts_with(err.as_str(), cat2(src.path.as_str(), ":").as_str()) {
                return err;
            }
            match src.locate(needle) {
                None => err,
                Some((line, col)) => cat7(
                    src.path.as_str(),
                    ":",
                    u64_text(line as u64).as_str(),
                    ":",
                    u64_text(col as u64).as_str(),
                    ": ",
                    err.as_str(),
                ),
            }
        },
    }
}

/// A failed outcome with its place in front of its reason; any other outcome
/// unchanged.
pub fn enrich_outcome(source: &Option<WorkloadSource>, needle: &str, o: Outcome) -> (r: Outcome)
    ensures
        !o.failing() ==> r == o,
        o.failing() ==> {
            &&& r.disposition == o.disposition
            &&& r.validity == o.validity
            &&& r.payload == o.payload
            &&& phase_outcome::text_of(r.reason) == Some(
                ({
                    let said = match o.reason {
                        Some(s) => s@,
                        None => Seq::<char>::empty(),
                    };
                    match source {
                        Some(src) => enriched(src.path@, src.text@, needle@, said),
                        None => said,
                    }
                }),
            )
        },
{
    if o.is_failure() {
        let said = match &o.reason {
            Some(s) => s.clone(),
            None => String::new(),
        };
        let m = enrich_with_yaml_location(source, needle, said);
        o.with_reason(m.as_str())
    } else {
        o
    }
}

/// A place is put in front once: what one dispatcher enriched, those around it
/// leave alone.
pub proof fn law_enriched_once(
    path: Seq<char>,
    text: Seq<char>,
    inner: Seq<char>,
    outer: Seq<char>,
    err: Seq<char>,
)
    requires
        located(text, inner) is Some || (path + ":"@).is_prefix_of(err),
    ensures
        enriched(path, text, outer, enriched(path, text, inner, err)) == enriched(
            path,
            text,
            inner,
            err,
        ),
{
    let once = enriched(path, text, inner, err);
    if !(path + ":"@).is_prefix_of(err) {
        let p = located(text, inner)->0;
        let rest = text::decimal(p.0) + ":"@ + text::decimal(p.1) + ": "@ + err;
        assert(once =~= (path + ":"@) + rest);
        assert(once.subrange(0, (path + ":"@).len() as int) =~= path + ":"@);
    }
}

/// The first place is found at which the text stands, and none where it stands nowhere.
pub proof fn law_first_place_is_found(hay: Seq<u8>, needle: Seq<u8>, from: int)
    requires
        0 <= from,
    ensures
        match find_from(hay, needle, from) {
            Some(i) => {
                &&& from <= i
                &&& i + needle.len() <= hay.len()
                &&& hay.subrange(i, i + needle.len()) == needle
                &&& forall|k: int|
                    from <= k < i ==> #[trigger] hay.subrange(k, k + needle.len()) != needle
            },
            None => forall|k: int|
                from <= k && k + needle.len() <= hay.len() ==> #[trigger] hay.subrange(
                    k,
                    k + needle.len(),
                ) != needle,
        },
    decreases hay.len() + 1 - from,
{
    if from + needle.len() <= hay.len() && !occurs(hay, needle, from) {
        law_first_place_is_found(hay, needle, from + 1);
    }
}

/// A place is told by its line and its column, both counted from one: a line break leads
/// to the first column of the next line, and any other byte to the next column.
pub proof fn law_position_counts_lines_and_columns(hay: Seq<u8>, i: int)
    requires
        0 <= i < hay.len(),
    ensures
        position_at(hay, 0) == (1nat, 1nat),
        hay[i] == 10u8 ==> position_at(hay, i + 1) == (position_at(hay, i).0 + 1, 1nat),
        hay[i] != 10u8 ==> position_at(hay, i + 1) == (
            position_at(hay, i).0,
            position_at(hay, i).1 + 1,
        ),
{
    assert(hay.take(i + 1).drop_last() =~= hay.take(i));
    assert(hay.take(i + 1).last() == hay[i]);
    assert(hay.take(0).len() == 0);
}

/// An error that does not tell its file yet is told it, with the place of what it is
/// about, in front; where that cannot be found, or the file is told already, the error
/// stays as it is.
pub proof fn law_error_is_told_its_place(
    path: Seq<char>,
    text: Seq<char>,
    needle: Seq<char>,
    err: Seq<char>,
)
    ensures
        ({
            let told = (path + ":"@).is_prefix_of(err);
            let r = enriched(path, text, needle, err);
            &&& told || located(text, needle) is None ==> r == err
            &&& !told ==> (located(text, needle) matches Some(p) ==> r == path + ":"@ + text::decimal(
                p.0,
            ) + ":"@ + text::decimal(p.1) + ": "@ + err)
        }),
{
}

/// What an error is about is placed where it stands first in the text, and nowhere where
/// it does not stand in it.
pub proof fn law_text_is_placed_where_it_stands_first(text: Seq<char>, needle: Seq<char>, i: int)
    requires
        0 <= i,
        i + utf8(needle).len() <= utf8(text).len(),
        utf8(text).subrange(i, i + utf8(needle).len()) == utf8(needle),
        forall|k: int|
            0 <= k < i ==> #[trigger] utf8(text).subrange(k, k + utf8(needle).len()) != utf8(needle),
    ensures
        located(text, needle) == Some(position_at(utf8(text), i)),
{
    law_first_place_is_found(utf8(text), utf8(needle), 0);
    let f = find_from(utf8(text), utf8(needle), 0);
    if let Some(j) = f {
        if j < i {
            assert(utf8(text).subrange(j, j + utf8(needle).len()) != utf8(needle));
        }
        if i < j {
            assert(utf8(text).subrange(i, i + utf8(needle).len()) != utf8(needle));
        }
    } else {
        assert(utf8(text).subrange(i, i + utf8(needle).len()) != utf8(needle));
    }
}

} // verus!
