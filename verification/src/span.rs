use vstd::prelude::*;

verus! {

/// Half-open byte range `[start, end)` into the source buffer, attached to
/// every token, expression and statement so that diagnostics can point back
/// at the offending text.
#[derive(Clone, Copy, Debug, PartialEq, Eq, Structural)]
pub struct Span {
    pub start: usize,
    pub end: usize,
}

impl Span {
    /// A span never runs backwards.
    pub open spec fn wf(self) -> bool {
        self.start <= self.end
    }

    pub fn new(start: usize, end: usize) -> (s: Span)
        ensures
            s == (Span { start, end }),
    {
        Span { start, end }
    }
}

/// The newline byte, the only line terminator the language knows.
pub const NEWLINE: u8 = 10;

/// How many newline bytes `s` holds.
pub open spec fn newline_count(s: Seq<u8>) -> nat
    decreases s.len(),
{
    if s.len() == 0 {
        0
    } else {
        newline_count(s.drop_last()) + (if s.last() == NEWLINE {
            1nat
        } else {
            0nat
        })
    }
}

proof fn lemma_newline_count_step(s: Seq<u8>, i: int)
    requires
        0 <= i < s.len(),
    ensures
        newline_count(s.subrange(0, i + 1)) == newline_count(s.subrange(0, i)) + (if s[i]
            == NEWLINE {
            1nat
        } else {
            0nat
        }),
{
    let t = s.subrange(0, i + 1);
    assert(t.drop_last() =~= s.subrange(0, i));
}

/// 1-based line number of the position where `span` starts: one more than
/// the number of newlines strictly before it.
pub fn line_number(span: &Span, source: &Vec<u8>) -> (n: usize)
    requires
        span.start <= source@.len(),
        source@.len() < usize::MAX,
    ensures
        n == newline_count(source@.subrange(0, span.start as int)) + 1,
{
    let mut count: usize = 0;
    let mut i: usize = 0;
    proof {
        assert(source@.subrange(0, 0) =~= Seq::<u8>::empty());
    }
    while i < span.start
        invariant
            i <= span.start,
            count <= i,
            count == newline_count(source@.subrange(0, i as int)),
        decreases span.start - i,
    {
        proof {
            lemma_newline_count_step(source@, i as int);
        }
        if source[i] == NEWLINE {
            count = count + 1;
        }
        i = i + 1;
    }
    count + 1
}

/// Start of the line that position `p` of `s` lies on: the index just after
/// the nearest newline at or before `p`, or 0 when there is none.
pub open spec fn line_start(s: Seq<u8>, p: int) -> int
    decreases p,
{
    if p <= 0 {
        0
    } else if s[p - 1] == NEWLINE {
        p
    } else {
        line_start(s, p - 1)
    }
}

/// End of the line that position `p` of `s` lies on: the index of the first
/// newline at or after `p`, or the length of `s` when there is none.
pub open spec fn line_end(s: Seq<u8>, p: int) -> int
    decreases s.len() - p,
{
    if p >= s.len() {
        s.len() as int
    } else if s[p] == NEWLINE {
        p
    } else {
        line_end(s, p + 1)
    }
}

/// The caret line that underlines `[u_start, u_end)` of a text segment that
/// begins at `base` and is `width` bytes long: a caret under every byte the
/// underline covers and a blank under every other byte.
pub open spec fn caret_line(base: int, width: int, u_start: int, u_end: int) -> Seq<u8> {
    Seq::new(width as nat, |k: int| if u_start <= base + k < u_end { 94u8 } else { 32u8 })
}

/// The two-line rendering of the line holding `[start, end)` in `s`: the
/// source line itself, then a line of carets under `[u_start, u_end)`,
/// each terminated by a newline.
pub open spec fn rendered_excerpt(s: Seq<u8>, start: int, end: int, u_start: int, u_end: int) -> Seq<
    u8,
> {
    let ls = line_start(s, start);
    let le = line_end(s, end);
    s.subrange(ls, le) + seq![NEWLINE] + caret_line(ls, le - ls, u_start, u_end) + seq![NEWLINE]
}

/// Renders the source line holding `span` together with a caret line that
/// underlines the bytes of `underline`, for diagnostic reporting. Yields
/// `None` exactly when `span` does not fit the source buffer.
pub fn formatted_content(span: &Span, underline: &Span, source: &Vec<u8>) -> (r: Option<Vec<u8>>)
    ensures
        match r {
            Option::None => span.end > source@.len() || span.start > span.end,
            Option::Some(v) => {
                &&& span.end <= source@.len()
                &&& span.start <= span.end
                &&& v@ == rendered_excerpt(
                    source@,
                    span.start as int,
                    span.end as int,
                    underline.start as int,
                    underline.end as int,
                )
            },
        },
{
    if span.end > source.len() || span.start > span.end {
        return Option::None;
    }
    // scan backward from the span to the nearest newline
    let mut ls: usize = span.start;
    while ls > 0 && source[ls - 1] != NEWLINE
        invariant
            ls <= span.start,
            line_start(source@, span.start as int) == line_start(source@, ls as int),
        decreases ls,
    {
        ls = ls - 1;
    }
    assert(line_start(source@, span.start as int) == ls);
    // scan forward from the span to the nearest newline
    let mut le: usize = span.end;
    while le < source.len() && source[le] != NEWLINE
        invariant
            span.end <= le <= source@.len(),
            line_end(source@, span.end as int) == line_end(source@, le as int),
        decreases source@.len() - le,
    {
        le = le + 1;
    }
    assert(line_end(source@, span.end as int) == le);

    let mut out: Vec<u8> = Vec::new();
    // the source line itself
    let mut i: usize = ls;
    while i < le
        invariant
            ls <= i <= le <= source@.len(),
            out@ == source@.subrange(ls as int, i as int),
        decreases le - i,
    {
        out.push(source[i]);
        proof {
            assert(out@ =~= source@.subrange(ls as int, i + 1));
        }
        i = i + 1;
    }
    out.push(NEWLINE);
    // the caret line underneath it
    let ghost text_part = source@.subrange(ls as int, le as int) + seq![NEWLINE];
    let mut k: usize = 0;
    while k < le - ls
        invariant
            ls <= le,
            k <= le - ls,
            out@ == text_part + caret_line(
                ls as int,
                k as int,
                underline.start as int,
                underline.end as int,
            ),
        decreases le - ls - k,
    {
        let pos = ls + k;
        if underline.start <= pos && pos < underline.end {
            out.push(94);
        } else {
            out.push(32);
        }
        proof {
            assert(out@ =~= text_part + caret_line(
                ls as int,
                k + 1,
                underline.start as int,
                underline.end as int,
            ));
        }
        k = k + 1;
    }
    out.push(NEWLINE);
    proof {
        assert(out@ =~= rendered_excerpt(
            source@,
            span.start as int,
            span.end as int,
            underline.start as int,
            underline.end as int,
        ));
    }
    Option::Some(out)
}

} // verus!
