use vstd::prelude::*;

verus! {

/// An error of one pipeline stage, tied to the source line where it arose.
///
/// `line` counts from the bottom of the source, starting at 1, as the stages
/// see the lines; `lines_amount` is the number of lines the stage saw.
#[derive(Debug)]
pub struct LinedError<T> {
    pub line: usize,
    pub lines_amount: usize,
    pub related_text: String,
    pub content: T,
}

impl<T> LinedError<T> {
    pub fn new(line: usize, lines_amount: usize, related_text: String, content: T) -> (r: LinedError<T>)
        ensures
            r.line == line,
            r.lines_amount == lines_amount,
            r.related_text == related_text,
            r.content == content,
    {
        LinedError { line, lines_amount, related_text, content }
    }

    /// The line number counted from the top of the source, starting at 1.
    pub fn line_from_top(&self) -> (r: usize)
        requires
            1 <= self.line <= self.lines_amount,
        ensures
            r == self.lines_amount - (self.line - 1),
    {
        self.lines_amount - (self.line - 1)
    }
}

/// `a` put in front of the sequence that `r` holds, when `r` is a success.
pub open spec fn prepend_ok<A, E>(a: Seq<A>, r: Result<Seq<A>, E>) -> Result<Seq<A>, E> {
    match r {
        Ok(t) => Ok(a + t),
        Err(e) => Err(e),
    }
}

pub proof fn lemma_prepend_ok_assoc<A, E>(a: Seq<A>, b: Seq<A>, r: Result<Seq<A>, E>)
    ensures
        prepend_ok(a, prepend_ok(b, r)) == prepend_ok(a + b, r),
{
    match r {
        Ok(t) => {
            assert(a + (b + t) =~= (a + b) + t);
        },
        Err(_) => {},
    }
}

/// Applies `f` to `a`, then to the rest it hands back, and so on, until it
/// hands back `None`, collecting the values it produced in order. Each step
/// must hand back a shorter rest.
pub fn build_step<'a, T, TN, F: Fn(&'a [T]) -> Option<(&'a [T], TN)>>(a: &'a [T], f: F) -> (r: Vec<TN>)
    requires
        forall|s: &'a [T]| #[trigger] f.requires((s,)),
        forall|s: &'a [T], o: Option<(&'a [T], TN)>|
            #[trigger] f.ensures((s,), o) ==> (o matches Some((rest, _)) ==> rest@.len() < s@.len()),
    ensures
        exists|steps: Seq<&'a [T]>|
            steps.len() == r.len() + 1 && steps[0] == a && (forall|i: int|
                0 <= i < r.len() ==> f.ensures((#[trigger] steps[i],), Some((steps[i + 1], r@[i]))))
                && f.ensures((steps[r.len() as int],), None::<(&'a [T], TN)>),
{
    let ghost start = a;
    let mut a = a;
    let mut vec: Vec<TN> = Vec::new();
    let ghost mut steps: Seq<&'a [T]> = seq![a];
    loop
        invariant
            forall|s: &'a [T]| #[trigger] f.requires((s,)),
            forall|s: &'a [T], o: Option<(&'a [T], TN)>|
                #[trigger] f.ensures((s,), o) ==> (o matches Some((rest, _)) ==> rest@.len() < s@.len()),
            steps.len() == vec.len() + 1,
            steps[0] == start,
            steps[vec.len() as int] == a,
            forall|i: int| 0 <= i < vec.len() ==> f.ensures((#[trigger] steps[i],), Some((steps[i + 1], vec@[i]))),
        ensures
            steps.len() == vec.len() + 1,
            steps[0] == start,
            forall|i: int| 0 <= i < vec.len() ==> f.ensures((#[trigger] steps[i],), Some((steps[i + 1], vec@[i]))),
            f.ensures((steps[vec.len() as int],), None::<(&'a [T], TN)>),
        decreases a@.len(),
    {
        let result = f(a);
        match result {
            None => break,
            Some(v) => {
                a = v.0;
                proof {
                    steps = steps.push(a);
                }
                vec.push(v.1);
            },
        }
    }
    assert(steps[0] == start);
    vec
}

} // verus!
