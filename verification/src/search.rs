//! A small text search: the arguments it takes, and the lines of a text that hold a
//! query.

use vstd::prelude::*;

use crate::text::{contains_seq, contains_str, ends_with, join_seq, split_seq, split_str, str_views, string_views, join_strings};

verus! {

/// The text of the error for too few arguments.
pub open spec fn usage_text() -> Seq<char> {
    "Expect two arguments, search string and file path."@
}

/// The search string and the file path: the second and third arguments.
pub fn parse(args: &Vec<String>) -> (r: Result<(&str, &str), &'static str>)
    ensures
        args@.len() < 3 ==> (r matches Err(e) && e@ == usage_text()),
        args@.len() >= 3 ==> (r matches Ok(p) && p.0@ == args@[1]@ && p.1@ == args@[2]@),
{
    if args.len() < 3 {
        return Err("Expect two arguments, search string and file path.");
    }
    let query = args[1].as_str();
    let filename = args[2].as_str();
    Ok((query, filename))
}

/// A line without the carriage return at its end, if it has one.
pub open spec fn without_cr(line: Seq<char>) -> Seq<char> {
    if line.len() > 0 && line.last() == '\r' {
        line.drop_last()
    } else {
        line
    }
}

/// The lines of a text as `str::lines` gives them: the pieces between line feeds, each
/// without a final carriage return, with no empty last line after a final line feed.
pub open spec fn spec_lines(text: Seq<char>) -> Seq<Seq<char>> {
    let pieces = split_seq(text, seq!['\n']);
    let kept = if text.len() == 0 || ends_with(text, seq!['\n']) {
        pieces.drop_last()
    } else {
        pieces
    };
    Seq::new(kept.len(), |i: int| without_cr(kept[i]))
}

/// The lines that hold the query, in order.
pub open spec fn matching(lines: Seq<Seq<char>>, query: Seq<char>) -> Seq<Seq<char>>
    decreases lines.len(),
{
    if lines.len() == 0 {
        lines
    } else if contains_seq(lines.last(), query) {
        matching(lines.drop_last(), query).push(lines.last())
    } else {
        matching(lines.drop_last(), query)
    }
}

/// The lines of the text that hold the query, joined with line feeds.
pub fn matching_lines(contents: &str, query: &str) -> (r: String)
    ensures
        r@ == join_seq(matching(spec_lines(contents@), query@), seq!['\n']),
{
    proof {
        reveal_strlit("\n");
        reveal_strlit("\r");
    }
    let pieces = split_str(contents, "\n");
    let n = contents.unicode_len();
    let drop_last = n == 0 || crate::text::ends_with_str(contents, "\n");
    let count = if drop_last && pieces.len() > 0 {
        pieces.len() - 1
    } else {
        pieces.len()
    };
    let ghost lines = spec_lines(contents@);
    proof {
        assert("\n"@ =~= seq!['\n']);
        crate::headers::lemma_split_nonempty(contents@, seq!['\n']);
        let ps = split_seq(contents@, seq!['\n']);
        assert(str_views(pieces@) == ps);
        assert(drop_last == (contents@.len() == 0 || ends_with(contents@, seq!['\n'])));
        assert(lines.len() == count);
        assert forall|k: int| 0 <= k < count implies #[trigger] lines[k] == without_cr(str_views(pieces@)[k]) by {
            if drop_last {
                assert(ps.drop_last()[k] == ps[k]);
            }
        }
    }
    let mut found: Vec<String> = Vec::new();
    let mut i: usize = 0;
    while i < count
        invariant
            count <= pieces@.len(),
            i <= count,
            lines.len() == count,
            lines == spec_lines(contents@),
            forall|k: int| 0 <= k < count ==> #[trigger] lines[k] == without_cr(str_views(pieces@)[k]),
            string_views(found@) == matching(lines.take(i as int), query@),
        decreases count - i,
    {
        let piece = pieces[i];
        let m = piece.unicode_len();
        let line = if m > 0 && piece.get_char(m - 1) == '\r' {
            piece.substring_char(0, m - 1)
        } else {
            piece
        };
        proof {
            assert(str_views(pieces@)[i as int] == piece@);
            if m > 0 && piece@[m - 1] == '\r' {
                assert(piece@.subrange(0, m - 1) =~= piece@.drop_last());
            }
            assert(line@ == lines[i as int]);
            assert(lines.take(i + 1).drop_last() =~= lines.take(i as int));
            assert(lines.take(i + 1).last() == line@);
        }
        if contains_str(line, query) {
            let ghost before = found@;
            found.push(line.to_owned());
            proof {
                assert(string_views(found@) =~= string_views(before).push(line@));
            }
        }
        i = i + 1;
    }
    proof {
        assert(lines.take(count as int) =~= lines);
    }
    join_strings(&found, "\n")
}

} // verus!
