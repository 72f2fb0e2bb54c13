//! The plugins' parse loop over one buffer. The parser is called from
//! outside; these types decide, from each answer, what is reported, where the
//! next slice starts and when the loop stops.
use vstd::prelude::*;
use crate::plugin::{
    lemma_step_agrees, parse_intern, result_as_line, results_agree, return_as_line,
    return_to_line, step_converted, ParseError, ParseReturn, ParsedMessage, ParserError,
    ParserOutput,
};

verus! {

/// Sum of the bytes that the successful results consumed.
pub open spec fn total_consumed(rs: Seq<Result<ParseReturn<String>, ParseError>>) -> nat
    decreases rs.len(),
{
    if rs.len() == 0 {
        0
    } else {
        total_consumed(rs.drop_last()) + match rs.last() {
            Ok(ret) => ret.consumed as nat,
            Err(_) => 0,
        }
    }
}

/// Where the slice of step `i` started: the bytes consumed by the results
/// before it.
pub open spec fn slice_start(rs: Seq<Result<ParseReturn<String>, ParseError>>, i: int) -> nat {
    total_consumed(rs.take(i))
}

/// `rs` is what the parse loop over a buffer of `len` bytes reports when the
/// parser answers `answers`, one for one: step `i` converts answer `i` for the
/// slice that starts after the bytes consumed before it, and every step but
/// the last one succeeded.
pub open spec fn trace_ok(
    len: nat,
    answers: Seq<Result<ParserOutput, ParserError>>,
    rs: Seq<Result<ParseReturn<String>, ParseError>>,
) -> bool {
    &&& rs.len() == answers.len()
    &&& forall|i: int|
        0 <= i < rs.len() ==> step_converted(
            (len - slice_start(rs, i)) as nat,
            #[trigger] answers[i],
            rs[i],
        )
    &&& forall|i: int| 0 <= i < rs.len() - 1 ==> #[trigger] rs[i] is Ok
}

/// The slices handed to the parser move forward: each one starts no earlier
/// than the one before it, and no later than the loop's current position.
pub proof fn lemma_slice_starts_ascend(
    rs: Seq<Result<ParseReturn<String>, ParseError>>,
    i: int,
    j: int,
)
    requires
        0 <= i <= j <= rs.len(),
    ensures
        slice_start(rs, i) <= slice_start(rs, j),
        slice_start(rs, j) <= total_consumed(rs),
    decreases rs.len() - i, j - i,
{
    assert(rs.take(rs.len() as int) =~= rs);
    if j < rs.len() {
        assert(rs.take(j + 1).drop_last() =~= rs.take(j));
        lemma_slice_starts_ascend(rs, j + 1, j + 1);
    }
    if i < j {
        assert(rs.take(j).drop_last() =~= rs.take(j - 1));
        lemma_slice_starts_ascend(rs, i, j - 1);
    }
}

/// The loop is a function of the parser's answers: over buffers of the same
/// length, two loops that got the same answers report the same results, one
/// for one, and stand at the same place. So the loop that hands each result
/// out as it comes and the loop that collects them all report the same
/// sequence.
pub proof fn lemma_same_answers_same_results(
    len: nat,
    answers: Seq<Result<ParserOutput, ParserError>>,
    rs1: Seq<Result<ParseReturn<String>, ParseError>>,
    rs2: Seq<Result<ParseReturn<String>, ParseError>>,
)
    requires
        trace_ok(len, answers, rs1),
        trace_ok(len, answers, rs2),
    ensures
        rs1.len() == rs2.len(),
        forall|i: int| 0 <= i < rs1.len() ==> results_agree(#[trigger] rs1[i], rs2[i]),
        total_consumed(rs1) == total_consumed(rs2),
{
    lemma_prefixes_agree(len, answers, rs1, rs2, rs1.len() as int);
    assert(rs1.take(rs1.len() as int) =~= rs1);
    assert(rs2.take(rs2.len() as int) =~= rs2);
}

proof fn lemma_prefixes_agree(
    len: nat,
    answers: Seq<Result<ParserOutput, ParserError>>,
    rs1: Seq<Result<ParseReturn<String>, ParseError>>,
    rs2: Seq<Result<ParseReturn<String>, ParseError>>,
    k: int,
)
    requires
        trace_ok(len, answers, rs1),
        trace_ok(len, answers, rs2),
        0 <= k <= rs1.len(),
    ensures
        forall|i: int| 0 <= i < k ==> results_agree(#[trigger] rs1[i], rs2[i]),
        total_consumed(rs1.take(k)) == total_consumed(rs2.take(k)),
    decreases k,
{
    if k == 0 {
        assert(rs1.take(0) =~= Seq::<Result<ParseReturn<String>, ParseError>>::empty());
        assert(rs2.take(0) =~= Seq::<Result<ParseReturn<String>, ParseError>>::empty());
    } else {
        let j = k - 1;
        lemma_prefixes_agree(len, answers, rs1, rs2, j);
        let a = answers[j];
        assert(step_converted((len - slice_start(rs1, j)) as nat, a, rs1[j]));
        assert(step_converted((len - slice_start(rs2, j)) as nat, a, rs2[j]));
        lemma_step_agrees((len - slice_start(rs1, j)) as nat, a, rs1[j], rs2[j]);
        assert(rs1.take(k).drop_last() =~= rs1.take(j));
        assert(rs2.take(k).drop_last() =~= rs2.take(j));
        assert(rs1.take(k).last() == rs1[j]);
        assert(rs2.take(k).last() == rs2[j]);
    }
}

/// Where the parse loop stands in a buffer: the next slice starts at
/// `position()`, and the loop is done once the parser answered an error.
pub struct ParseCursor {
    start: usize,
    len: usize,
    finished: bool,
    data: Ghost<Seq<u8>>,
    answers: Ghost<Seq<Result<ParserOutput, ParserError>>>,
    reported: Ghost<Seq<Result<ParseReturn<String>, ParseError>>>,
}

impl ParseCursor {
    /// Start of the slice handed to the parser next.
    pub closed spec fn position(&self) -> nat {
        self.start as nat
    }

    /// Length of the whole buffer.
    pub closed spec fn data_len(&self) -> nat {
        self.len as nat
    }

    /// Whether the parser has answered an error.
    pub closed spec fn is_done(&self) -> bool {
        self.finished
    }

    /// The whole buffer.
    pub closed spec fn data(&self) -> Seq<u8> {
        self.data@
    }

    /// The parser's answers so far, in order.
    pub closed spec fn answers(&self) -> Seq<Result<ParserOutput, ParserError>> {
        self.answers@
    }

    /// The results handed out so far, in order.
    pub closed spec fn reported(&self) -> Seq<Result<ParseReturn<String>, ParseError>> {
        self.reported@
    }

    /// The loop's invariant: the results handed out convert the parser's
    /// answers one for one; the bytes they consumed add up to the start of
    /// the next slice, which lies within the buffer; every result is a
    /// success but the last one once the loop is done, which is the error that
    /// stopped it.
    pub open spec fn well_formed(&self) -> bool {
        &&& self.data().len() == self.data_len()
        &&& self.position() <= self.data_len()
        &&& trace_ok(self.data_len(), self.answers(), self.reported())
        &&& total_consumed(self.reported()) == self.position()
        &&& self.is_done() <==> (self.reported().len() > 0 && self.reported().last() is Err)
    }

    /// A loop at the start of `data`.
    pub fn new(data: &[u8]) -> (c: Self)
        ensures
            c.well_formed(),
            c.position() == 0,
            c.data_len() == data.len(),
            c.data() == data@,
            !c.is_done(),
            c.answers() == Seq::<Result<ParserOutput, ParserError>>::empty(),
            c.reported() == Seq::<Result<ParseReturn<String>, ParseError>>::empty(),
    {
        ParseCursor {
            start: 0,
            len: data.len(),
            finished: false,
            data: Ghost(data@),
            answers: Ghost(Seq::empty()),
            reported: Ghost(Seq::empty()),
        }
    }

    /// Start of the slice handed to the parser next.
    pub fn start(&self) -> (s: usize)
        ensures
            s == self.position(),
    {
        self.start
    }

    /// Whether the loop has stopped.
    pub fn finished(&self) -> (b: bool)
        ensures
            b == self.is_done(),
    {
        self.finished
    }

    /// Takes the parser's answer `outcome` for `slice`, the rest of the buffer
    /// from `position()` on, and returns the step's result: on success the
    /// next slice starts after the consumed bytes, on an error the loop stops.
    pub fn advance(&mut self, slice: &[u8], outcome: Result<ParserOutput, ParserError>) -> (r:
        Result<ParseReturn<String>, ParseError>)
        requires
            old(self).well_formed(),
            !old(self).is_done(),
            slice@ == old(self).data().skip(old(self).position() as int),
            outcome is Ok ==> outcome->Ok_0.remaining <= slice@.len(),
        ensures
            final(self).well_formed(),
            step_converted(slice@.len(), outcome, r),
            final(self).data_len() == old(self).data_len(),
            final(self).data() == old(self).data(),
            final(self).answers() == old(self).answers().push(outcome),
            final(self).reported() == old(self).reported().push(r),
            final(self).is_done() == r is Err,
            r is Ok ==> final(self).position() == old(self).position() + r->Ok_0.consumed,
            r is Err ==> final(self).position() == old(self).position(),
    {
        let ghost old_answers = self.answers@;
        let ghost old_reported = self.reported@;
        let ghost answer = outcome;
        let rest = match &outcome {
            Ok(out) => out.remaining,
            Err(_) => 0,
        };
        let r = parse_intern(slice, outcome);
        match &r {
            Ok(_) => {
                self.start = self.len - rest;
            },
            Err(_) => {
                self.finished = true;
            },
        }
        proof {
            let rs = old_reported.push(r);
            let ans = old_answers.push(answer);
            let n = old_reported.len() as int;
            assert(rs.drop_last() =~= old_reported);
            assert(rs.take(n) =~= old_reported);
            assert forall|i: int| 0 <= i < n implies #[trigger] rs.take(i) == old_reported.take(
                i,
            ) by {
                assert(rs.take(i) =~= old_reported.take(i));
            }
            assert forall|i: int| 0 <= i < rs.len() implies step_converted(
                (self.len - slice_start(rs, i)) as nat,
                #[trigger] ans[i],
                rs[i],
            ) by {
                if i < n {
                    assert(rs.take(i) == old_reported.take(i));
                    assert(ans[i] == old_answers[i]);
                    assert(rs[i] == old_reported[i]);
                }
            }
            self.answers = Ghost(ans);
            self.reported = Ghost(rs);
        }
        r
    }

    /// As `advance`, the result given as the newer plugin interface has it:
    /// its message, if any, as a line. The loop's record keeps the step's
    /// result in the plain form.
    pub fn advance_line(&mut self, slice: &[u8], outcome: Result<ParserOutput, ParserError>) -> (r:
        Result<ParseReturn<ParsedMessage>, ParseError>)
        requires
            old(self).well_formed(),
            !old(self).is_done(),
            slice@ == old(self).data().skip(old(self).position() as int),
            outcome is Ok ==> outcome->Ok_0.remaining <= slice@.len(),
        ensures
            final(self).well_formed(),
            final(self).data_len() == old(self).data_len(),
            final(self).data() == old(self).data(),
            final(self).answers() == old(self).answers().push(outcome),
            final(self).reported().len() == old(self).reported().len() + 1,
            final(self).reported().drop_last() == old(self).reported(),
            step_converted(slice@.len(), outcome, final(self).reported().last()),
            r == result_as_line(final(self).reported().last()),
            final(self).is_done() == r is Err,
            r is Ok ==> final(self).position() == old(self).position() + r->Ok_0.consumed,
            r is Err ==> final(self).position() == old(self).position(),
    {
        let ghost old_reported = self.reported@;
        let s = self.advance(slice, outcome);
        assert(self.reported@.drop_last() =~= old_reported);
        match s {
            Ok(ret) => Ok(return_to_line(ret)),
            Err(e) => Err(e),
        }
    }
}

/// A cursor, whose results the plugin hands out one at a time, and a run,
/// which collects them, that got the same parser answers over buffers of the
/// same length have reported the same results, one for one, and stand at the
/// same place.
pub proof fn lemma_cursor_agrees_with_run(c: ParseCursor, r: ParseRun)
    requires
        c.well_formed(),
        r.well_formed(),
        c.data_len() == r.data_len(),
        c.answers() == r.answers(),
    ensures
        c.reported().len() == r.results().len(),
        forall|i: int|
            0 <= i < r.results().len() ==> results_agree(#[trigger] c.reported()[i], r.results()[i]),
        c.position() == r.position(),
        c.is_done() == r.is_done(),
{
    lemma_same_answers_same_results(c.data_len(), c.answers(), c.reported(), r.results());
    let n = r.results().len();
    if n > 0 {
        assert(results_agree(c.reported()[n - 1], r.results()[n - 1]));
    }
}

/// A parse loop that keeps every step's result, as the plugin hands them
/// back at the end.
pub struct ParseRun {
    cursor: ParseCursor,
    results: Vec<Result<ParseReturn<String>, ParseError>>,
}

impl ParseRun {
    /// Start of the slice handed to the parser next.
    pub closed spec fn position(&self) -> nat {
        self.cursor.position()
    }

    /// Length of the whole buffer.
    pub closed spec fn data_len(&self) -> nat {
        self.cursor.data_len()
    }

    /// Whether the parser has answered an error.
    pub closed spec fn is_done(&self) -> bool {
        self.cursor.is_done()
    }

    /// The whole buffer.
    pub closed spec fn data(&self) -> Seq<u8> {
        self.cursor.data()
    }

    /// The parser's answers so far, in order.
    pub closed spec fn answers(&self) -> Seq<Result<ParserOutput, ParserError>> {
        self.cursor.answers()
    }

    /// The results so far, in order.
    pub closed spec fn results(&self) -> Seq<Result<ParseReturn<String>, ParseError>> {
        self.results@
    }

    /// The kept results are the ones the loop handed out.
    pub closed spec fn keeps_reported(&self) -> bool {
        self.results@ == self.cursor.reported() && self.cursor.well_formed()
    }

    /// The loop's invariant, as for `ParseCursor`, over the kept results.
    pub open spec fn well_formed(&self) -> bool {
        &&& self.keeps_reported()
        &&& self.data().len() == self.data_len()
        &&& self.position() <= self.data_len()
        &&& trace_ok(self.data_len(), self.answers(), self.results())
        &&& total_consumed(self.results()) == self.position()
        &&& self.is_done() <==> (self.results().len() > 0 && self.results().last() is Err)
    }

    /// A loop at the start of `data`, with no result yet.
    pub fn new(data: &[u8]) -> (run: Self)
        ensures
            run.well_formed(),
            run.position() == 0,
            run.data_len() == data.len(),
            run.data() == data@,
            !run.is_done(),
            run.answers() == Seq::<Result<ParserOutput, ParserError>>::empty(),
            run.results() == Seq::<Result<ParseReturn<String>, ParseError>>::empty(),
    {
        let run = ParseRun { cursor: ParseCursor::new(data), results: Vec::new() };
        assert(run.results@ =~= run.cursor.reported());
        run
    }

    /// Start of the slice handed to the parser next.
    pub fn start(&self) -> (s: usize)
        ensures
            s == self.position(),
    {
        self.cursor.start()
    }

    /// Whether the loop has stopped.
    pub fn finished(&self) -> (b: bool)
        ensures
            b == self.is_done(),
    {
        self.cursor.finished()
    }

    /// Takes the parser's answer `outcome` for `slice`, the rest of the buffer
    /// from `position()` on, and appends the step's result.
    pub fn feed(&mut self, slice: &[u8], outcome: Result<ParserOutput, ParserError>)
        requires
            old(self).well_formed(),
            !old(self).is_done(),
            slice@ == old(self).data().skip(old(self).position() as int),
            outcome is Ok ==> outcome->Ok_0.remaining <= slice@.len(),
        ensures
            final(self).well_formed(),
            final(self).data_len() == old(self).data_len(),
            final(self).data() == old(self).data(),
            final(self).answers() == old(self).answers().push(outcome),
            final(self).results().len() == old(self).results().len() + 1,
            final(self).results().drop_last() == old(self).results(),
            step_converted(slice@.len(), outcome, final(self).results().last()),
            final(self).is_done() == final(self).results().last() is Err,
    {
        let ghost old_results = self.results@;
        let r = self.cursor.advance(slice, outcome);
        self.results.push(r);
        assert(self.results@ =~= self.cursor.reported());
        assert(self.results@.drop_last() =~= old_results);
    }

    /// All results, in order.
    pub fn into_results(self) -> (rs: Vec<Result<ParseReturn<String>, ParseError>>)
        ensures
            rs@ == self.results(),
    {
        self.results
    }

    /// The loop's outcome as the newer plugin interface reports it: the
    /// error, if the very first step failed; else the results before the
    /// error that stopped the loop, messages carried as lines.
    pub fn into_official(self) -> (r: Result<Vec<ParseReturn<ParsedMessage>>, ParseError>)
        requires
            self.well_formed(),
            self.is_done(),
        ensures
            r is Err <==> self.results()[0] is Err,
            r is Err ==> r == Err::<Vec<ParseReturn<ParsedMessage>>, ParseError>(
                self.results()[0]->Err_0,
            ),
            r is Ok ==> r->Ok_0@.len() == self.results().len() - 1,
            r is Ok ==> forall|i: int|
                0 <= i < self.results().len() - 1 ==> #[trigger] r->Ok_0@[i] == return_as_line(
                    self.results()[i]->Ok_0,
                ),
    {
        let ghost all = self.results@;
        let mut rs = self.results;
        let last = rs.pop();
        if rs.len() == 0 {
            match last {
                Some(Err(e)) => {
                    return Err(e);
                },
                _ => {
                    assert(false);
                    return Ok(Vec::new());
                },
            }
        }
        let ghost n = rs@.len();
        assert(all[0] is Ok);
        let mut reversed: Vec<ParseReturn<ParsedMessage>> = Vec::new();
        while rs.len() > 0
            invariant
                n == all.len() - 1,
                rs@.len() + reversed@.len() == n,
                forall|i: int| 0 <= i < rs@.len() ==> #[trigger] rs@[i] == all[i],
                forall|i: int| 0 <= i < n ==> #[trigger] all[i] is Ok,
                forall|j: int|
                    0 <= j < reversed@.len() ==> #[trigger] reversed@[j] == return_as_line(
                        all[n - 1 - j]->Ok_0,
                    ),
            decreases rs@.len(),
        {
            let ghost k = rs@.len() - 1;
            assert(all[k] is Ok);
            let x = rs.pop();
            match x {
                Some(Ok(ret)) => {
                    reversed.push(return_to_line(ret));
                },
                _ => {
                    assert(false);
                },
            }
        }
        let mut out: Vec<ParseReturn<ParsedMessage>> = Vec::new();
        while reversed.len() > 0
            invariant
                reversed@.len() + out@.len() == n,
                forall|j: int|
                    0 <= j < reversed@.len() ==> #[trigger] reversed@[j] == return_as_line(
                        all[n - 1 - j]->Ok_0,
                    ),
                forall|i: int|
                    0 <= i < out@.len() ==> #[trigger] out@[i] == return_as_line(all[i]->Ok_0),
            decreases reversed@.len(),
        {
            let y = reversed.pop();
            match y {
                Some(v) => {
                    out.push(v);
                },
                None => {
                    assert(false);
                },
            }
        }
        Ok(out)
    }
}

} // verus!
