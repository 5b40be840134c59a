//! The task list held in memory, and the operations on it.

use vstd::prelude::*;

use crate::model::{
    added_from, all_occur, file_text, idle_named, kept, lines_of, listing, marked, names,
    pieces, renamed,
};
use crate::record::{
    decode_line, description, encode, encode_line, is_done, is_well_formed_line,
    lemma_encode_decode, render_description, well_formed_line,
};
use crate::text::{blank, chars_of, occurs, occurs_in, push_chars, push_decimal};

verus! {

/// Why an operation refused to change the list.
#[derive(Debug, Clone, Copy, PartialEq, Eq, Structural)]
pub enum TodoError {
    /// The operation needs at least one description and got none.
    MissingArguments,
    /// A description given does not occur in the file text.
    NotInList,
    /// The line at this 0-based position does not open with `[ ] ` or `[*] `.
    MalformedLine(usize),
}

/// A task list: its lines in order, and where the file that holds them lives.
pub struct Todo {
    pub todo: Vec<String>,
    pub todo_path: String,
}

impl View for Todo {
    type V = Seq<Seq<char>>;

    open spec fn view(&self) -> Seq<Seq<char>> {
        self.todo@.map_values(|l: String| l@)
    }
}

impl Todo {
    /// Every line opens with one of the two markers.
    pub open spec fn wf(&self) -> bool {
        forall|i: int| 0 <= i < self@.len() ==> well_formed_line(#[trigger] self@[i])
    }

    /// Reads a list from the text of its file.
    pub fn new(todo_path: String, contents: &str) -> (r: Result<Todo, TodoError>)
        ensures
            match r {
                Ok(t) => {
                    &&& t.wf()
                    &&& t@ == lines_of(contents@)
                    &&& t.todo_path@ == todo_path@
                },
                Err(e) => exists|k: int|
                    0 <= k < lines_of(contents@).len() && e == TodoError::MalformedLine(k as usize)
                        && !well_formed_line(#[trigger] lines_of(contents@)[k]) && forall|j: int|
                        0 <= j < k ==> well_formed_line(#[trigger] lines_of(contents@)[j]),
            },
            r is Ok <==> forall|k: int|
                0 <= k < lines_of(contents@).len() ==> well_formed_line(
                    #[trigger] lines_of(contents@)[k],
                ),
    {
        let cs = chars_of(contents);
        let n = cs.len();
        let mut done: Vec<String> = Vec::new();
        let mut start: usize = 0;
        let mut i: usize = 0;
        assert(cs@.take(0) =~= Seq::<char>::empty());
        assert(done@.map_values(|l: String| l@).push(cs@.subrange(0, 0)) =~~= seq![seq![]]);
        while i < n
            invariant
                n == cs@.len(),
                cs@ == contents@,
                start <= i <= n,
                pieces(cs@.take(i as int)) == done@.map_values(|l: String| l@).push(
                    cs@.subrange(start as int, i as int),
                ),
            decreases n - i,
        {
            let ghost before = cs@.take(i as int);
            let ghost d0 = done@.map_values(|l: String| l@);
            let ghost cur = cs@.subrange(start as int, i as int);
            assert(cs@.take(i + 1).drop_last() =~= before);
            assert(cs@.take(i + 1).last() == cs@[i as int]);
            if cs[i] == '\n' {
                let piece = contents.substring_char(start, i);
                done.push(String::from_str(piece));
                start = i + 1;
                i = i + 1;
                assert(done@.map_values(|l: String| l@) =~= d0.push(cur));
                assert(cs@.subrange(start as int, i as int) =~= Seq::<char>::empty());
                assert(pieces(cs@.take(i as int)) =~~= done@.map_values(|l: String| l@).push(
                    cs@.subrange(start as int, i as int),
                ));
            } else {
                i = i + 1;
                assert(cs@.subrange(start as int, i as int) =~= cur.push(cs@[i - 1]));
                assert(pieces(cs@.take(i as int)) =~~= done@.map_values(|l: String| l@).push(
                    cs@.subrange(start as int, i as int),
                ));
            }
        }
        assert(cs@.take(n as int) =~= cs@);
        if start < n {
            let piece = contents.substring_char(start, n);
            done.push(String::from_str(piece));
        }
        assert(done@.map_values(|l: String| l@) =~= lines_of(contents@));
        let mut k: usize = 0;
        while k < done.len()
            invariant
                done@.map_values(|l: String| l@) == lines_of(contents@),
                k <= done@.len(),
                forall|j: int| 0 <= j < k ==> well_formed_line(#[trigger] lines_of(contents@)[j]),
            decreases done@.len() - k,
        {
            if !is_well_formed_line(done[k].as_str()) {
                assert(!well_formed_line(lines_of(contents@)[k as int]));
                return Err(TodoError::MalformedLine(k));
            }
            k = k + 1;
        }
        Ok(Todo { todo: done, todo_path })
    }

    /// The characters of the file text.
    fn text_chars(&self) -> (r: Vec<char>)
        ensures
            r@ == file_text(self@),
    {
        let mut r: Vec<char> = Vec::new();
        let mut i: usize = 0;
        while i < self.todo.len()
            invariant
                i <= self@.len(),
                r@ == file_text(self@.take(i as int)),
            decreases self@.len() - i,
        {
            assert(self@.take(i + 1).drop_last() =~= self@.take(i as int));
            push_chars(&mut r, self.todo[i].as_str());
            r.push('\n');
            i = i + 1;
        }
        assert(self@.take(i as int) =~= self@);
        r
    }

    /// The file text: every line followed by a newline.
    pub fn contents(&self) -> (r: String)
        ensures
            r@ == file_text(self@),
    {
        let mut r = String::new();
        let mut i: usize = 0;
        while i < self.todo.len()
            invariant
                i <= self@.len(),
                r@ == file_text(self@.take(i as int)),
            decreases self@.len() - i,
        {
            assert(self@.take(i + 1).drop_last() =~= self@.take(i as int));
            r.append(self.todo[i].as_str());
            proof {
                reveal_strlit("\n");
            }
            r.append("\n");
            i = i + 1;
        }
        assert(self@.take(i as int) =~= self@);
        r
    }

    /// The listing: each task on a row with its 1-based number, completed
    /// ones struck through.
    pub fn list(&self) -> (r: String)
        requires
            self.wf(),
        ensures
            r@ == listing(self@),
    {
        let mut r = String::new();
        let mut i: usize = 0;
        while i < self.todo.len()
            invariant
                self.wf(),
                i <= self@.len(),
                r@ == listing(self@.take(i as int)),
            decreases self@.len() - i,
        {
            assert(self@.take(i + 1).drop_last() =~= self@.take(i as int));
            assert(well_formed_line(self@[i as int]));
            let (completed, task) = decode_line(self.todo[i].as_str());
            push_decimal(&mut r, i + 1);
            proof {
                reveal_strlit(" ");
                reveal_strlit("\n");
            }
            r.append(" ");
            let shown = render_description(completed, task.as_str());
            r.append(shown.as_str());
            r.append("\n");
            i = i + 1;
            assert(r@ =~= listing(self@.take(i as int)));
        }
        assert(self@.take(i as int) =~= self@);
        r
    }

    /// Appends each description given as an open task, in order. A blank one
    /// is skipped; one that already occurs in the file text stops the rest,
    /// and its position is returned. Refused where no description is given.
    pub fn add(&mut self, args: &[String]) -> (r: Result<Option<usize>, TodoError>)
        requires
            old(self).wf(),
        ensures
            final(self).wf(),
            final(self).todo_path == old(self).todo_path,
            r is Err <==> args@.len() == 0,
            r is Err ==> r == Err::<Option<usize>, TodoError>(TodoError::MissingArguments)
                && final(self)@ == old(self)@,
            r is Ok ==> final(self)@ == added_from(old(self)@, names(args@), 0).0,
            r is Ok ==> match r->Ok_0 {
                Some(k) => added_from(old(self)@, names(args@), 0).1 == Some(k as int),
                None => added_from(old(self)@, names(args@), 0).1 is None,
            },
    {
        if args.len() == 0 {
            return Err(TodoError::MissingArguments);
        }
        let ghost ns = names(args@);
        let ghost goal = added_from(self@, ns, 0);
        let mut i: usize = 0;
        while i < args.len()
            invariant
                ns == names(args@),
                ns.len() == args@.len(),
                i <= args@.len(),
                self.wf(),
                self.todo_path == old(self).todo_path,
                added_from(self@, ns, i as int) == goal,
                goal == added_from(old(self)@, ns, 0),
            decreases args@.len() - i,
        {
            assert(ns[i as int] == args@[i as int]@);
            let t = self.text_chars();
            let p = chars_of(args[i].as_str());
            if occurs(&t, &p) {
                return Ok(Some(i));
            }
            if !blank(args[i].as_str()) {
                let line = encode_line(false, args[i].as_str());
                proof {
                    lemma_encode_decode(false, args@[i as int]@);
                }
                let ghost before = self@;
                self.todo.push(line);
                assert(self@ =~= before.push(encode(false, ns[i as int])));
            }
            i = i + 1;
        }
        Ok(None)
    }

    /// Gives each named line the flag `completed`; returns how many named
    /// lines were open before.
    fn mark_named(&mut self, args: &[String], completed: bool) -> (r: usize)
        requires
            old(self).wf(),
        ensures
            final(self).wf(),
            final(self)@ == marked(old(self)@, names(args@), completed),
            r == idle_named(old(self)@, names(args@)),
            final(self).todo_path == old(self).todo_path,
    {
        let ghost ls = self@;
        let ghost ns = names(args@);
        let mut out: Vec<String> = Vec::new();
        let mut idle: usize = 0;
        let mut i: usize = 0;
        while i < self.todo.len()
            invariant
                self@ == ls,
                ns == names(args@),
                self.wf(),
                i <= ls.len(),
                idle <= i,
                idle == idle_named(ls.take(i as int), ns),
                out@.len() == i,
                forall|k: int| 0 <= k < i ==> (#[trigger] out@[k])@ == marked(ls, ns, completed)[k],
                forall|k: int| 0 <= k < i ==> well_formed_line(#[trigger] out@[k]@),
            decreases ls.len() - i,
        {
            assert(ls.take(i + 1).drop_last() =~= ls.take(i as int));
            assert(well_formed_line(ls[i as int]));
            let (done, task) = decode_line(self.todo[i].as_str());
            let named = is_named(args, &task);
            assert(named == ns.contains(description(ls[i as int])));
            assert(done == is_done(ls[i as int]));
            if named && !done {
                idle = idle + 1;
            }
            if named {
                proof {
                    lemma_encode_decode(completed, task@);
                }
                out.push(encode_line(completed, task.as_str()));
            } else {
                out.push(self.todo[i].clone());
            }
            assert(out@[i as int]@ == marked(ls, ns, completed)[i as int]);
            i = i + 1;
        }
        assert(ls.take(i as int) =~= ls);
        self.todo = out;
        assert(self@ =~= marked(ls, ns, completed));
        idle
    }

    /// Marks completed each line whose description is given. Refused, with
    /// nothing changed, where a description does not occur in the file text.
    pub fn complete(&mut self, args: &[String]) -> (r: Result<(), TodoError>)
        requires
            old(self).wf(),
        ensures
            final(self).wf(),
            final(self).todo_path == old(self).todo_path,
            r is Ok <==> all_occur(file_text(old(self)@), names(args@)),
            r is Ok ==> final(self)@ == marked(old(self)@, names(args@), true),
            r is Err ==> r == Err::<(), TodoError>(TodoError::NotInList) && final(self)@ == old(
                self,
            )@,
    {
        let t = self.text_chars();
        if !all_present(&t, args) {
            return Err(TodoError::NotInList);
        }
        self.mark_named(args, true);
        Ok(())
    }

    /// Marks open again each line whose description is given, and returns how
    /// many of those were open already. Refused, with nothing changed, where a
    /// description does not occur in the file text.
    pub fn uncomplete(&mut self, args: &[String]) -> (r: Result<usize, TodoError>)
        requires
            old(self).wf(),
        ensures
            final(self).wf(),
            final(self).todo_path == old(self).todo_path,
            r is Ok <==> all_occur(file_text(old(self)@), names(args@)),
            r is Ok ==> final(self)@ == marked(old(self)@, names(args@), false) && r->Ok_0
                == idle_named(old(self)@, names(args@)),
            r is Err ==> r == Err::<usize, TodoError>(TodoError::NotInList) && final(self)@ == old(
                self,
            )@,
    {
        let t = self.text_chars();
        if !all_present(&t, args) {
            return Err(TodoError::NotInList);
        }
        let idle = self.mark_named(args, false);
        Ok(idle)
    }

    /// Removes each line whose description is given exactly.
    pub fn delete(&mut self, args: &[String])
        requires
            old(self).wf(),
        ensures
            final(self).wf(),
            final(self).todo_path == old(self).todo_path,
            final(self)@ == kept(old(self)@, names(args@)),
    {
        let ghost ls = self@;
        let ghost ns = names(args@);
        let mut out: Vec<String> = Vec::new();
        let mut i: usize = 0;
        while i < self.todo.len()
            invariant
                self@ == ls,
                ns == names(args@),
                self.wf(),
                i <= ls.len(),
                out@.map_values(|l: String| l@) == kept(ls.take(i as int), ns),
                forall|k: int| 0 <= k < out@.len() ==> well_formed_line(#[trigger] out@[k]@),
            decreases ls.len() - i,
        {
            assert(ls.take(i + 1).drop_last() =~= ls.take(i as int));
            assert(ls.take(i + 1).last() == ls[i as int]);
            assert(well_formed_line(ls[i as int]));
            let (_, task) = decode_line(self.todo[i].as_str());
            let named = is_named(args, &task);
            assert(named == ns.contains(description(ls.take(i + 1).last())));
            if !named {
                let ghost before = out@;
                out.push(self.todo[i].clone());
                assert(out@.map_values(|l: String| l@) =~= before.map_values(|l: String| l@).push(
                    ls[i as int],
                ));
            } else {
                assert(out@.map_values(|l: String| l@) == kept(ls.take(i + 1), ns));
            }
            i = i + 1;
        }
        assert(ls.take(i as int) =~= ls);
        self.todo = out;
        assert(self@ =~= kept(ls, ns));
    }

    /// Gives `change_to` to each line whose description is `what_to_change`,
    /// keeping its flag. Refused, with nothing changed, where `what_to_change`
    /// does not occur in the file text.
    pub fn update(&mut self, what_to_change: &String, change_to: &String) -> (r: Result<
        (),
        TodoError,
    >)
        requires
            old(self).wf(),
        ensures
            final(self).wf(),
            final(self).todo_path == old(self).todo_path,
            r is Ok <==> occurs_in(file_text(old(self)@), what_to_change@),
            r is Ok ==> final(self)@ == renamed(old(self)@, what_to_change@, change_to@),
            r is Err ==> r == Err::<(), TodoError>(TodoError::NotInList) && final(self)@ == old(
                self,
            )@,
    {
        let t = self.text_chars();
        let p = chars_of(what_to_change.as_str());
        if !occurs(&t, &p) {
            return Err(TodoError::NotInList);
        }
        let ghost ls = self@;
        let mut out: Vec<String> = Vec::new();
        let mut i: usize = 0;
        while i < self.todo.len()
            invariant
                self@ == ls,
                self.wf(),
                i <= ls.len(),
                out@.len() == i,
                forall|k: int|
                    0 <= k < i ==> (#[trigger] out@[k])@ == renamed(
                        ls,
                        what_to_change@,
                        change_to@,
                    )[k],
                forall|k: int| 0 <= k < i ==> well_formed_line(#[trigger] out@[k]@),
            decreases ls.len() - i,
        {
            assert(well_formed_line(ls[i as int]));
            let (done, task) = decode_line(self.todo[i].as_str());
            if task == *what_to_change {
                proof {
                    lemma_encode_decode(done, change_to@);
                }
                out.push(encode_line(done, change_to.as_str()));
            } else {
                out.push(self.todo[i].clone());
            }
            i = i + 1;
        }
        self.todo = out;
        assert(self@ =~= renamed(ls, what_to_change@, change_to@));
        Ok(())
    }

    /// Empties the list.
    pub fn clear(&mut self)
        ensures
            final(self)@ == Seq::<Seq<char>>::empty(),
            final(self).wf(),
            final(self).todo_path == old(self).todo_path,
    {
        self.todo = Vec::new();
        assert(self@ =~= Seq::<Seq<char>>::empty());
    }
}

/// Whether `d` is one of the descriptions given.
fn is_named(args: &[String], d: &String) -> (r: bool)
    ensures
        r == names(args@).contains(d@),
{
    let mut i: usize = 0;
    while i < args.len()
        invariant
            i <= args@.len(),
            forall|k: int| 0 <= k < i ==> args@[k]@ != d@,
        decreases args@.len() - i,
    {
        if args[i] == *d {
            assert(names(args@)[i as int] == d@);
            return true;
        }
        i = i + 1;
    }
    assert forall|k: int| 0 <= k < names(args@).len() implies names(args@)[k] != d@ by {
        assert(names(args@)[k] == args@[k]@);
    }
    false
}

/// Whether every description given occurs in the text.
fn all_present(t: &Vec<char>, args: &[String]) -> (r: bool)
    ensures
        r == all_occur(t@, names(args@)),
{
    let mut i: usize = 0;
    while i < args.len()
        invariant
            i <= args@.len(),
            forall|k: int| 0 <= k < i ==> occurs_in(t@, #[trigger] names(args@)[k]),
        decreases args@.len() - i,
    {
        let p = chars_of(args[i].as_str());
        if !occurs(t, &p) {
            assert(!occurs_in(t@, names(args@)[i as int]));
            return false;
        }
        i = i + 1;
    }
    true
}

} // verus!
