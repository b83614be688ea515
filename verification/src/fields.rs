//! The comma-separated fields of a sentence, read one at a time.
use vstd::prelude::*;
use vstd::string::*;

verus! {

/// The position of the first `sep` in `s`, or the length of `s` where there
/// is none.
pub open spec fn sep_index(s: Seq<char>, sep: char) -> int
    decreases s.len(),
{
    if s.len() == 0 || s[0] == sep {
        0
    } else {
        1 + sep_index(s.drop_first(), sep)
    }
}

/// `sep_index` is the first `sep`, or the end.
pub proof fn lemma_sep_index(s: Seq<char>, sep: char)
    ensures
        0 <= sep_index(s, sep) <= s.len(),
        sep_index(s, sep) < s.len() ==> s[sep_index(s, sep)] == sep,
        forall|j: int| 0 <= j < sep_index(s, sep) ==> s[j] != sep,
    decreases s.len(),
{
    if s.len() > 0 && s[0] != sep {
        lemma_sep_index(s.drop_first(), sep);
        assert forall|j: int| 0 <= j < sep_index(s, sep) implies s[j] != sep by {
            if j > 0 {
                assert(s[j] == s.drop_first()[j - 1]);
            }
        }
    }
}

/// A position before which no `sep` stands, and at which `sep` or the end
/// stands, is `sep_index`.
pub proof fn lemma_sep_index_at(s: Seq<char>, sep: char, i: int)
    requires
        0 <= i <= s.len(),
        forall|j: int| 0 <= j < i ==> s[j] != sep,
        i < s.len() ==> s[i] == sep,
    ensures
        sep_index(s, sep) == i,
    decreases s.len(),
{
    if s.len() > 0 && i > 0 {
        let t = s.drop_first();
        assert forall|j: int| 0 <= j < i - 1 implies t[j] != sep by {
            assert(t[j] == s[j + 1]);
        }
        if i - 1 < t.len() {
            assert(t[i - 1] == s[i]);
        }
        assert(s[0] != sep);
        lemma_sep_index_at(t, sep, i - 1);
    }
}

/// The pieces of `s` between the occurrences of `sep`, as `str::split` with a
/// `char` pattern yields them: always at least one, and an empty piece
/// where two separators meet or one stands at an end.
pub open spec fn split_fields(s: Seq<char>, sep: char) -> Seq<Seq<char>>
    decreases s.len(),
{
    let k = sep_index(s, sep);
    if k < s.len() {
        proof {
            lemma_sep_index(s, sep);
        }
        seq![s.take(k)] + split_fields(s.skip(k + 1), sep)
    } else {
        seq![s]
    }
}

/// The pieces joined again, with `sep` between each two.
pub open spec fn join_fields(fields: Seq<Seq<char>>, sep: char) -> Seq<char>
    decreases fields.len(),
{
    if fields.len() == 0 {
        Seq::empty()
    } else if fields.len() == 1 {
        fields[0]
    } else {
        fields[0] + seq![sep] + join_fields(fields.drop_first(), sep)
    }
}

/// Splitting loses nothing: the fields joined by the separator give back
/// the text, no field holds the separator, and there is at least one field.
pub proof fn lemma_split_join(s: Seq<char>, sep: char)
    ensures
        split_fields(s, sep).len() >= 1,
        join_fields(split_fields(s, sep), sep) == s,
        forall|i: int, j: int|
            0 <= i < split_fields(s, sep).len() && 0 <= j < split_fields(s, sep)[i].len()
                ==> split_fields(s, sep)[i][j] != sep,
    decreases s.len(),
{
    lemma_sep_index(s, sep);
    let k = sep_index(s, sep);
    let fs = split_fields(s, sep);
    if k < s.len() {
        let rest = s.skip(k + 1);
        lemma_split_join(rest, sep);
        let rs = split_fields(rest, sep);
        assert(fs =~= seq![s.take(k)] + rs);
        assert(fs.drop_first() =~= rs);
        assert(fs[0] == s.take(k));
        assert(s =~= s.take(k) + seq![sep] + rest);
        assert forall|i: int, j: int| 0 <= i < fs.len() && 0 <= j < fs[i].len() implies fs[i][j]
            != sep by {
            if i > 0 {
                assert(fs[i] == rs[i - 1]);
            }
        }
    } else {
        assert(fs =~= seq![s]);
    }
}

/// The fields of a sentence, read front to back as `str::split` with a
/// `char` separator reads them. Its view is the sequence of fields not read
/// yet.
pub struct Fields<'a> {
    rest: &'a str,
    sep: char,
    done: bool,
}

impl<'a> View for Fields<'a> {
    type V = Seq<Seq<char>>;

    closed spec fn view(&self) -> Seq<Seq<char>> {
        if self.done {
            Seq::empty()
        } else {
            split_fields(self.rest@, self.sep)
        }
    }
}

impl<'a> Fields<'a> {
    /// The fields of `text` between the occurrences of `sep`.
    pub fn new(text: &'a str, sep: char) -> (r: Fields<'a>)
        ensures
            r@ == split_fields(text@, sep),
    {
        Fields { rest: text, sep, done: false }
    }

    /// Hands out the next field, or `None` once all have been read; after
    /// that it keeps answering `None`.
    pub fn next(&mut self) -> (r: Option<&'a str>)
        ensures
            old(self)@.len() == 0 ==> r is None && final(self)@ == old(self)@,
            old(self)@.len() > 0 ==> (r matches Some(f) && f@ == old(self)@[0] && final(self)@
                == old(self)@.drop_first()),
    {
        if self.done {
            return None;
        }
        let n = self.rest.unicode_len();
        let mut i: usize = 0;
        while i < n && self.rest.get_char(i) != self.sep
            invariant
                i <= n,
                n == self.rest@.len(),
                forall|j: int| 0 <= j < i ==> self.rest@[j] != self.sep,
            decreases n - i,
        {
            i = i + 1;
        }
        let ghost s = self.rest@;
        proof {
            lemma_sep_index_at(s, self.sep, i as int);
        }
        if i < n {
            let field = self.rest.substring_char(0, i);
            let tail = self.rest.substring_char(i + 1, n);
            proof {
                assert(s.take(i as int) =~= s.subrange(0, i as int));
                assert(s.skip(i + 1) =~= s.subrange(i + 1, n as int));
            }
            self.rest = tail;
            Some(field)
        } else {
            self.done = true;
            Some(self.rest)
        }
    }
}

} // verus!
