//! Reading and writing the co-author lines of a commit message.
use vstd::prelude::*;
use vstd::string::*;
use crate::config::Author;
use crate::text::{
    after_first, find_char, lines, lines_of, starts_with, starts_with_text,
    texts, trim, trimmed,
};

verus! {

/// The text that marks a co-author line.
pub open spec fn tag() -> Seq<char> {
    "Co-authored-by"@
}

/// The line that credits an author, with the line break before it.
pub open spec fn trailer(a: Author) -> Seq<char> {
    "\nCo-authored-by: "@ + a.name@ + " <"@ + a.email@ + ">"@
}

/// A co-author line: once trimmed, it starts with the marker.
pub open spec fn is_credit_line(line: Seq<char>) -> bool {
    starts_with_text(trimmed(line), tag())
}

/// The lines of a message that are not co-author lines.
pub open spec fn kept_lines(message: Seq<char>) -> Seq<Seq<char>> {
    lines_of(message).filter(|l: Seq<char>| !is_credit_line(l))
}

/// Lines joined with a line break between each two.
pub open spec fn joined(ls: Seq<Seq<char>>) -> Seq<char>
    decreases ls.len(),
{
    if ls.len() == 0 {
        Seq::empty()
    } else {
        joined(ls.drop_last()) + (if ls.len() > 1 {
            "\n"@
        } else {
            Seq::empty()
        }) + ls.last()
    }
}

/// The message with its co-author lines replaced: the other lines, joined
/// by line breaks, then one credit line per author, in order.
pub open spec fn formatted(message: Seq<char>, authors: Seq<Author>) -> Seq<char> {
    joined(kept_lines(message)) + authors.map_values(|a: Author| trailer(a)).flatten()
}

/// The message with its co-author lines replaced by one per author.
pub fn format_commit_message(message: &str, authors: Vec<Author>) -> (r: String)
    ensures
        r@ == formatted(message@, authors@),
{
    let all = lines(message);
    let ghost ls = lines_of(message@);
    let mut msg = String::new();
    let mut kept: usize = 0;
    let mut i: usize = 0;
    while i < all.len()
        invariant
            i <= all@.len(),
            texts(all@) == ls,
            kept as int == ls.take(i as int).filter(|l: Seq<char>| !is_credit_line(l)).len(),
            msg@ == joined(ls.take(i as int).filter(|l: Seq<char>| !is_credit_line(l))),
        decreases all@.len() - i,
    {
        let ghost before = ls.take(i as int).filter(|l: Seq<char>| !is_credit_line(l));
        proof {
            assert(ls.take(i + 1) =~= ls.take(i as int).push(ls[i as int]));
            ls.take(i as int).lemma_filter_push(ls[i as int], |l: Seq<char>| !is_credit_line(l));
            assert(before.push(ls[i as int]).drop_last() =~= before);
            ls.take(i as int).lemma_filter_len(|l: Seq<char>| !is_credit_line(l));
        }
        assert(all@[i as int]@ == ls[i as int]);
        if !starts_with(trim(all[i].as_str()), "Co-authored-by") {
            if kept > 0 {
                msg.append("\n");
            }
            msg.append(all[i].as_str());
            kept += 1;
        }
        i += 1;
    }
    proof {
        assert(ls.take(ls.len() as int) =~= ls);
    }
    let ghost head = msg@;
    let mut j: usize = 0;
    while j < authors.len()
        invariant
            j <= authors@.len(),
            head == joined(kept_lines(message@)),
            msg@ == head + authors@.take(j as int).map_values(|a: Author| trailer(a)).flatten(),
        decreases authors@.len() - j,
    {
        proof {
            assert(authors@.take(j + 1).map_values(|a: Author| trailer(a)) =~= authors@.take(j as int).map_values(|a: Author| trailer(a)).push(
                trailer(authors@[j as int]),
            ));
            authors@.take(j as int).map_values(|a: Author| trailer(a)).lemma_flatten_push(trailer(authors@[j as int]));
        }
        msg.append("\nCo-authored-by: ");
        msg.append(authors[j].name.as_str());
        msg.append(" <");
        msg.append(authors[j].email.as_str());
        msg.append(">");
        j += 1;
    }
    proof {
        assert(authors@.take(authors@.len() as int) =~= authors@);
    }
    msg
}

/// The address on a co-author line, if the line is one: the trimmed line
/// starts with the marker and holds a `<`; the address is what follows the
/// first `<`, less its last character.
pub open spec fn address_of(line: Seq<char>) -> Option<Seq<char>> {
    let t = trimmed(line);
    if is_credit_line(line) {
        match after_first(t, '<') {
            Some(rest) => Some(
                if rest.len() > 0 {
                    rest.drop_last()
                } else {
                    rest
                },
            ),
            None => None,
        }
    } else {
        None
    }
}

/// The addresses of the co-author lines of a message, in order.
pub open spec fn addresses(message: Seq<char>) -> Seq<Seq<char>> {
    lines_of(message).filter_map(|l: Seq<char>| address_of(l))
}

/// The address on one line, if it is a co-author line.
fn line_address(line: &str) -> (r: Option<String>)
    ensures
        match r {
            Some(a) => address_of(line@) == Some(a@),
            None => address_of(line@) is None,
        },
{
    let t = trim(line);
    if !starts_with(t, "Co-authored-by") {
        return None;
    }
    match find_char(t, '<') {
        Some(k) => {
            let n = t.unicode_len();
            if k + 1 < n {
                Some(String::from_str(t.substring_char(k + 1, n - 1)))
            } else {
                assert(t@.subrange(k + 1, n as int) =~= Seq::<char>::empty());
                Some(String::new())
            }
        },
        None => None,
    }
}

/// The addresses that the co-author lines of a message credit.
pub fn parse_authors(message: &str) -> (r: Vec<String>)
    ensures
        texts(r@) == addresses(message@),
{
    let all = lines(message);
    let ghost ls = lines_of(message@);
    let mut out: Vec<String> = Vec::new();
    let mut i: usize = 0;
    while i < all.len()
        invariant
            i <= all@.len(),
            texts(all@) == ls,
            texts(out@) == ls.take(i as int).filter_map(|l: Seq<char>| address_of(l)),
        decreases all@.len() - i,
    {
        proof {
            assert(ls.take(i + 1).drop_last() =~= ls.take(i as int));
            assert(all@[i as int]@ == ls[i as int]);
        }
        match line_address(all[i].as_str()) {
            Some(a) => {
                let ghost before = out@;
                out.push(a);
                proof {
                    assert(texts(out@) =~= texts(before) + seq![a@]);
                }
            },
            None => {},
        }
        i += 1;
    }
    proof {
        assert(ls.take(ls.len() as int) =~= ls);
    }
    out
}

/// Whether `email` is one of `existing`.
fn listed(existing: &Vec<String>, email: &String) -> (r: bool)
    ensures
        r == texts(existing@).contains(email@),
{
    let mut i: usize = 0;
    while i < existing.len()
        invariant
            i <= existing@.len(),
            forall|k: int| 0 <= k < i ==> existing@[k]@ != email@,
        decreases existing@.len() - i,
    {
        if existing[i] == *email {
            assert(texts(existing@)[i as int] == email@);
            return true;
        }
        i += 1;
    }
    false
}

/// The authors with `staged` set exactly on those whose address the commit
/// already credits.
pub open spec fn marked(authors: Seq<Author>, existing: Seq<Seq<char>>) -> Seq<Author> {
    authors.map_values(
        |a: Author| Author { name: a.name, email: a.email, staged: existing.contains(a.email@) },
    )
}

/// Marks as staged each author whose address is among `existing_authors`,
/// and clears the mark on the others.
pub fn mark_present(authors: Vec<Author>, existing_authors: Vec<String>) -> (r: Vec<Author>)
    ensures
        r@ == marked(authors@, texts(existing_authors@)),
{
    let ghost orig = authors@;
    let ghost ex = texts(existing_authors@);
    let mut rest = authors;
    let mut out: Vec<Author> = Vec::new();
    while rest.len() > 0
        invariant
            out@.len() + rest@.len() == orig.len(),
            ex == texts(existing_authors@),
            rest@ == orig.subrange(out@.len() as int, orig.len() as int),
            out@ == marked(orig.take(out@.len() as int), ex),
        decreases rest@.len(),
    {
        let ghost k = out@.len() as int;
        let mut a = rest.remove(0);
        let flag = listed(&existing_authors, &a.email);
        a.staged = flag;
        out.push(a);
        proof {
            assert(rest@ =~= orig.subrange(k + 1, orig.len() as int));
            assert(orig.take(k + 1) =~= orig.take(k).push(orig[k]));
            assert(out@ =~= marked(orig.take(k + 1), ex));
        }
    }
    proof {
        assert(orig.take(orig.len() as int) =~= orig);
    }
    out
}

} // verus!
