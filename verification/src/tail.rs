//! The end of a run's output, and what is added to it.

use crate::text::{cat3, cat5, cat7, lemma_views_push, lines, lines_of, views};
use vstd::prelude::*;

verus! {

/// How many lines of a file are shown at first.
pub const TAIL_LINES: usize = 100;

/// The last lines of a text, as many as are shown at first.
pub open spec fn tail_of(text: Seq<char>) -> Seq<Seq<char>> {
    let all = lines_of(text);
    if all.len() > TAIL_LINES {
        all.skip(all.len() - TAIL_LINES)
    } else {
        all
    }
}

/// The last lines of a text.
pub fn tail_lines(text: &str) -> (r: Vec<String>)
    ensures
        views(r@) == tail_of(text@),
{
    let all = lines(text);
    let ghost whole = lines_of(text@);
    let start: usize = if all.len() > TAIL_LINES { all.len() - TAIL_LINES } else { 0 };
    let mut out: Vec<String> = Vec::new();
    let mut i: usize = start;
    while i < all.len()
        invariant
            start <= i <= all@.len(),
            whole == views(all@),
            views(out@) == whole.subrange(start as int, i as int),
        decreases all@.len() - i,
    {
        let ghost before = out@;
        let line = all[i].clone();
        out.push(line);
        i += 1;
        proof {
            lemma_views_push(before, line);
            assert(whole.subrange(start as int, i as int) =~= whole.subrange(start as int, i - 1).push(line@));
        }
    }
    proof {
        assert(whole.subrange(start as int, whole.len() as int) =~= tail_of(text@));
    }
    out
}

/// The line that says which file the lines below it come from.
pub fn source_header(path: &str, label: &str) -> (r: String)
    ensures
        r@ == "==> "@ + path@ + " ("@ + label@ + ") <=="@,
{
    cat5("==> ", path, " (", label, ") <==")
}

/// What the user is told where there is no output yet.
pub fn no_output_text(subject: &str, first: &str, second: &str) -> (r: String)
    ensures
        r@ == "No output files yet for "@ + subject@ + " (looked for "@ + first@ + " and "@ + second@ + ")"@,
{
    cat7("No output files yet for ", subject, " (looked for ", first, " and ", second, ")")
}

/// What the user is told where output is waited for.
pub fn waiting_text(subject: &str) -> (r: String)
    ensures
        r@ == "Waiting for output from "@ + subject@ + " (Ctrl-C to stop)…"@,
{
    cat3("Waiting for output from ", subject, " (Ctrl-C to stop)…")
}

/// How far each of several files has been shown, and which was shown last.
#[derive(Debug)]
pub struct Follower {
    pub offsets: Vec<u64>,
    pub last: Option<usize>,
}

/// Where a file is read on, given how far it was shown and how long it is: from the start where it
/// has become shorter, since it is another file then; nowhere where there is nothing new.
pub open spec fn resumes(shown: u64, len: u64) -> Option<u64> {
    let from = if len < shown {
        0
    } else {
        shown
    };
    if len == from {
        None
    } else {
        Some(from)
    }
}

impl Follower {
    /// Nothing shown yet of so many files.
    pub fn new(files: usize) -> (r: Follower)
        ensures
            r.offsets@ == Seq::new(files as nat, |i: int| 0u64),
            r.last is None,
    {
        let mut offsets: Vec<u64> = Vec::new();
        let mut i: usize = 0;
        while i < files
            invariant
                i <= files,
                offsets@ == Seq::new(i as nat, |j: int| 0u64),
            decreases files - i,
        {
            offsets.push(0);
            i += 1;
            assert(offsets@ =~= Seq::new(i as nat, |j: int| 0u64));
        }
        Follower { offsets, last: None }
    }

    /// Takes note of a file that is shown up to its end, so many bytes from its start.
    pub fn shown(&mut self, i: usize, len: u64)
        requires
            i < old(self).offsets@.len(),
        ensures
            final(self).offsets@ == old(self).offsets@.update(i as int, len),
            final(self).last == Some(i),
    {
        self.offsets.set(i, len);
        self.last = Some(i);
    }

    /// Looks at a file's length, and gives where it is read on.
    pub fn resume(&mut self, i: usize, len: u64) -> (r: Option<u64>)
        requires
            i < old(self).offsets@.len(),
        ensures
            r == resumes(old(self).offsets@[i as int], len),
            final(self).last == old(self).last,
            final(self).offsets@ == old(self).offsets@.update(
                i as int,
                if len < old(self).offsets@[i as int] {
                    0
                } else {
                    old(self).offsets@[i as int]
                },
            ),
    {
        if len < self.offsets[i] {
            self.offsets.set(i, 0);
        }
        assert(self.offsets@ =~= old(self).offsets@.update(
            i as int,
            if len < old(self).offsets@[i as int] {
                0
            } else {
                old(self).offsets@[i as int]
            },
        ));
        if len == self.offsets[i] {
            None
        } else {
            Some(self.offsets[i])
        }
    }

    /// Takes note of so many bytes that are shown of a file, and gives whether they need a header:
    /// another file was shown last.
    pub fn advance(&mut self, i: usize, bytes: u64) -> (r: bool)
        requires
            i < old(self).offsets@.len(),
            old(self).offsets@[i as int] + bytes <= u64::MAX,
        ensures
            r == (old(self).last != Some(i)),
            final(self).last == Some(i),
            final(self).offsets@ == old(self).offsets@.update(
                i as int,
                (old(self).offsets@[i as int] + bytes) as u64,
            ),
    {
        let shown: u64 = self.offsets[i];
        self.offsets.set(i, shown + bytes);
        let header = match self.last {
            Some(k) => k != i,
            None => true,
        };
        self.last = Some(i);
        header
    }
}

/// What has been shown of a file in all, given what was shown at first and what was found each time
/// that the file was looked at: its length, and then all that could be read of it.
pub open spec fn shown_of(start: Seq<u8>, looks: Seq<(u64, Seq<u8>)>) -> Seq<u8>
    decreases looks.len(),
{
    if looks.len() == 0 {
        start
    } else {
        let shown = shown_of(start, looks.drop_last());
        match resumes(shown.len() as u64, looks.last().0) {
            Some(from) => shown + looks.last().1.skip(from as int),
            None => shown,
        }
    }
}

/// What a file held before it was looked at for the `i`th time.
pub open spec fn before_look(start: Seq<u8>, looks: Seq<(u64, Seq<u8>)>, i: int) -> Seq<u8> {
    if i == 0 {
        start
    } else {
        looks[i - 1].1
    }
}

/// Whether a file only grows from one look to the next, and within a look.
pub open spec fn only_grows(start: Seq<u8>, looks: Seq<(u64, Seq<u8>)>) -> bool {
    forall|i: int| #![trigger looks[i]]
        0 <= i < looks.len() ==> {
            let earlier = before_look(start, looks, i);
            &&& earlier.len() <= looks[i].0 <= looks[i].1.len() <= u64::MAX
            &&& earlier == looks[i].1.take(earlier.len() as int)
        }
}

/// A file that only grows is shown without gap or repetition: what has been shown of it is how it
/// begins, up to where it ended when its length was looked at last, or further.
pub proof fn growing_files_are_shown_once(start: Seq<u8>, looks: Seq<(u64, Seq<u8>)>)
    requires
        looks.len() > 0,
        only_grows(start, looks),
    ensures
        looks.last().0 <= shown_of(start, looks).len() <= looks.last().1.len(),
        shown_of(start, looks) == looks.last().1.take(shown_of(start, looks).len() as int),
    decreases looks.len(),
{
    let n = looks.len() as int;
    let (len, file) = looks.last();
    let shown = shown_of(start, looks.drop_last());
    let earlier = before_look(start, looks, n - 1);
    assert(looks[n - 1] == looks.last());
    if n > 1 {
        assert forall|i: int| #![trigger looks.drop_last()[i]] 0 <= i < n - 1 implies {
            let e = before_look(start, looks.drop_last(), i);
            &&& e.len() <= looks.drop_last()[i].0 <= looks.drop_last()[i].1.len() <= u64::MAX
            &&& e == looks.drop_last()[i].1.take(e.len() as int)
        } by {
            assert(looks.drop_last()[i] == looks[i]);
            assert(before_look(start, looks.drop_last(), i) == before_look(start, looks, i));
        }
        growing_files_are_shown_once(start, looks.drop_last());
        assert(looks.drop_last().last().1 == earlier);
    } else {
        assert(looks.drop_last().len() == 0);
    }
    assert(shown =~= earlier.take(shown.len() as int));
    assert(shown =~= file.take(shown.len() as int)) by {
        assert forall|k: int| 0 <= k < shown.len() implies shown[k] == file[k] by {
            assert(shown[k] == earlier.take(shown.len() as int)[k]);
            assert(earlier[k] == file.take(earlier.len() as int)[k]);
        }
    }
    match resumes(shown.len() as u64, len) {
        Some(from) => {
            assert(from == shown.len());
            assert(shown + file.skip(from as int) =~= file);
            assert(file =~= file.take(file.len() as int));
        },
        None => {},
    }
}

/// At first the last hundred lines of a text are shown, and all of them where there are no more; in
/// their order, up to the last.
pub proof fn tails_are_the_last_lines(text: Seq<char>)
    ensures
        lines_of(text).len() <= 100 ==> tail_of(text) == lines_of(text),
        lines_of(text).len() > 100 ==> tail_of(text).len() == 100 && forall|i: int|
            0 <= i < 100 ==> #[trigger] tail_of(text)[i] == lines_of(text)[lines_of(text).len() - 100 + i],
{
}

/// A file is read on where it was left; from its start where it has become shorter; and not at all
/// where it has nothing more to show.
pub proof fn files_are_read_on_where_they_were_left(shown: u64, len: u64)
    ensures
        len > shown ==> resumes(shown, len) == Some(shown),
        len == shown ==> resumes(shown, len) is None,
        0 < len < shown ==> resumes(shown, len) == Some(0u64),
        len == 0 ==> resumes(shown, len) is None,
{
}

} // verus!
