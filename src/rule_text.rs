use vstd::prelude::*;
use crate::rules::{Rule, RuleError, RuleField, RuleView, rules_view};

verus! {

/// The lines of a text: the pieces between newline characters, so a text
/// of `n` newlines has `n + 1` lines.
pub open spec fn split_lines(s: Seq<char>) -> Seq<Seq<char>>
    decreases s.len(),
{
    if s.len() == 0 {
        seq![Seq::<char>::empty()]
    } else {
        let pre = split_lines(s.drop_last());
        if s.last() == '\n' {
            pre.push(Seq::empty())
        } else {
            pre.update(pre.len() - 1, pre.last().push(s.last()))
        }
    }
}

proof fn lemma_split_lines_nonempty(s: Seq<char>)
    ensures
        split_lines(s).len() >= 1,
    decreases s.len(),
{
    if s.len() > 0 {
        lemma_split_lines_nonempty(s.drop_last());
    }
}

/// The first space at or after `from`.
pub open spec fn space_from(l: Seq<char>, from: int) -> Option<int>
    decreases l.len() - from,
{
    if from < 0 || from >= l.len() {
        None
    } else if l[from] == ' ' {
        Some(from)
    } else {
        space_from(l, from + 1)
    }
}

/// The field a rule line names.
pub open spec fn field_named(name: Seq<char>) -> Option<RuleField> {
    if name == "payee"@ {
        Some(RuleField::Payee)
    } else if name == "source"@ {
        Some(RuleField::SourceAccount)
    } else {
        None
    }
}

/// What one line of a rule file holds.
pub enum LineView {
    /// An empty line or a `#` comment.
    Skip,
    Rule(RuleView),
    Bad,
}

/// A line is `<field> <account> <pattern>`: the field and the account end
/// at the first and second space, the pattern is the rest of the line and
/// may hold spaces. None of the three may be empty.
pub open spec fn parsed_line(l: Seq<char>) -> LineView {
    if l.len() == 0 || l[0] == '#' {
        LineView::Skip
    } else {
        match space_from(l, 0) {
            None => LineView::Bad,
            Some(a) => match space_from(l, a + 1) {
                None => LineView::Bad,
                Some(b) => match field_named(l.subrange(0, a)) {
                    Some(f) => if b > a + 1 && b + 1 < l.len() {
                        LineView::Rule(
                            RuleView {
                                field: f,
                                pattern: l.subrange(b + 1, l.len() as int),
                                account: l.subrange(a + 1, b),
                            },
                        )
                    } else {
                        LineView::Bad
                    },
                    None => LineView::Bad,
                },
            },
        }
    }
}

/// The rules of a sequence of lines, in order; the first bad line fails the
/// whole text with its number, counting from 1.
pub open spec fn parsed_lines(ls: Seq<Seq<char>>) -> Result<Seq<RuleView>, RuleError>
    decreases ls.len(),
{
    if ls.len() == 0 {
        Ok(Seq::empty())
    } else {
        match parsed_lines(ls.drop_last()) {
            Err(e) => Err(e),
            Ok(rs) => match parsed_line(ls.last()) {
                LineView::Skip => Ok(rs),
                LineView::Rule(r) => Ok(rs.push(r)),
                LineView::Bad => Err(RuleError::Syntax(ls.len() as usize)),
            },
        }
    }
}

/// The rules of a rule text.
pub open spec fn parsed_rules(text: Seq<char>) -> Result<Seq<RuleView>, RuleError> {
    parsed_lines(split_lines(text))
}

pub open spec fn strs_view(v: Seq<String>) -> Seq<Seq<char>> {
    v.map_values(|s: String| s@)
}

/// Splits a text into its lines.
fn lines_of(text: &str) -> (r: Vec<String>)
    ensures
        strs_view(r@) == split_lines(text@),
{
    let n = text.unicode_len();
    let mut out: Vec<String> = Vec::new();
    let mut start: usize = 0;
    let mut i: usize = 0;
    proof {
        assert(text@.subrange(0, 0) =~= Seq::<char>::empty());
        assert(strs_view(out@).push(text@.subrange(0, 0)) =~= split_lines(text@.subrange(0, 0)));
    }
    while i < n
        invariant
            n == text@.len(),
            start <= i <= n,
            strs_view(out@).push(text@.subrange(start as int, i as int)) == split_lines(text@.subrange(0, i as int)),
        decreases n - i,
    {
        let c = text.get_char(i);
        let ghost cur = text@.subrange(start as int, i as int);
        let ghost before = strs_view(out@);
        proof {
            assert(text@.subrange(0, i + 1).drop_last() =~= text@.subrange(0, i as int));
            assert(text@.subrange(0, i + 1).last() == c);
        }
        if c == '\n' {
            let piece = text.substring_char(start, i).to_owned();
            out.push(piece);
            start = i + 1;
            proof {
                assert(strs_view(out@) =~= before.push(cur));
                assert(text@.subrange(start as int, i + 1) =~= Seq::<char>::empty());
            }
        } else {
            proof {
                assert(text@.subrange(start as int, i + 1) =~= cur.push(c));
                assert(before.push(cur).update(before.len() as int, cur.push(c)) =~= before.push(cur.push(c)));
            }
        }
        i = i + 1;
    }
    let last = text.substring_char(start, n).to_owned();
    let ghost before = strs_view(out@);
    out.push(last);
    proof {
        assert(text@.subrange(0, n as int) =~= text@);
        assert(strs_view(out@) =~= before.push(last@));
    }
    out
}

/// The first space of `l` at or after `from`.
fn find_space(l: &str, from: usize) -> (r: Option<usize>)
    ensures
        match r {
            Some(k) => space_from(l@, from as int) == Some(k as int) && from <= k < l@.len(),
            None => space_from(l@, from as int) is None,
        },
{
    let n = l.unicode_len();
    let mut k: usize = from;
    if k >= n {
        return None;
    }
    while k < n
        invariant
            n == l@.len(),
            from <= k <= n,
            space_from(l@, from as int) == space_from(l@, k as int),
        decreases n - k,
    {
        if l.get_char(k) == ' ' {
            return Some(k);
        }
        k = k + 1;
    }
    None
}

/// Reads one line of a rule file.
fn parse_line(l: &str) -> (r: Result<Option<Rule>, ()>)
    ensures
        match r {
            Ok(None) => parsed_line(l@) is Skip,
            Ok(Some(rule)) => parsed_line(l@) == LineView::Rule(rule@),
            Err(_) => parsed_line(l@) is Bad,
        },
{
    let n = l.unicode_len();
    if n == 0 {
        return Ok(None);
    }
    if l.get_char(0) == '#' {
        return Ok(None);
    }
    let a = match find_space(l, 0) {
        Some(a) => a,
        None => {
            return Err(());
        },
    };
    let b = match find_space(l, a + 1) {
        Some(b) => b,
        None => {
            return Err(());
        },
    };
    let name = l.substring_char(0, a).to_owned();
    proof {
        reveal_strlit("payee");
        reveal_strlit("source");
        assert("payee"@.len() != "source"@.len());
    }
    let field = if name == "payee".to_owned() {
        RuleField::Payee
    } else if name == "source".to_owned() {
        RuleField::SourceAccount
    } else {
        return Err(());
    };
    if !(b > a + 1 && b + 1 < n) {
        return Err(());
    }
    let account = l.substring_char(a + 1, b).to_owned();
    let pattern = l.substring_char(b + 1, n).to_owned();
    Ok(Some(Rule { field, pattern, account }))
}

/// Reads a rule file: one rule per line, `<field> <account> <pattern>`,
/// where the field is `payee` or `source`, the account holds no space and
/// the pattern is the rest of the line. Empty lines and lines starting
/// with `#` are skipped. The first malformed line fails the whole text with
/// `Syntax` and its line number.
pub fn parse_rules(text: &str) -> (r: Result<Vec<Rule>, RuleError>)
    ensures
        match r {
            Ok(rs) => parsed_rules(text@) == Ok::<Seq<RuleView>, RuleError>(rules_view(rs@)),
            Err(e) => parsed_rules(text@) == Err::<Seq<RuleView>, RuleError>(e),
        },
{
    let lines = lines_of(text);
    let ghost ls = strs_view(lines@);
    let mut out: Vec<Rule> = Vec::new();
    let mut i: usize = 0;
    proof {
        assert(rules_view(out@) =~= Seq::<RuleView>::empty());
    }
    while i < lines.len()
        invariant
            ls == strs_view(lines@),
            ls == split_lines(text@),
            i <= lines@.len(),
            parsed_lines(ls.subrange(0, i as int)) == Ok::<Seq<RuleView>, RuleError>(rules_view(out@)),
        decreases lines@.len() - i,
    {
        proof {
            assert(ls.subrange(0, i + 1).drop_last() =~= ls.subrange(0, i as int));
            assert(ls.subrange(0, i + 1).last() == lines@[i as int]@);
        }
        match parse_line(lines[i].as_str()) {
            Ok(None) => {},
            Ok(Some(rule)) => {
                let ghost before = out@;
                out.push(rule);
                proof {
                    assert(rules_view(out@) =~= rules_view(before).push(rule@));
                }
            },
            Err(()) => {
                proof {
                    assert(parsed_lines(ls.subrange(0, i + 1)) == Err::<Seq<RuleView>, RuleError>(
                        RuleError::Syntax((i + 1) as usize),
                    ));
                    lemma_parsed_stops(ls, i + 1);
                }
                return Err(RuleError::Syntax(i + 1));
            },
        }
        i = i + 1;
    }
    proof {
        assert(ls.subrange(0, lines@.len() as int) =~= ls);
    }
    Ok(out)
}

proof fn lemma_parsed_stops(ls: Seq<Seq<char>>, k: int)
    requires
        0 <= k <= ls.len(),
        parsed_lines(ls.subrange(0, k)) is Err,
    ensures
        parsed_lines(ls) == parsed_lines(ls.subrange(0, k)),
    decreases ls.len() - k,
{
    if k < ls.len() {
        assert(ls.subrange(0, k + 1).drop_last() =~= ls.subrange(0, k));
        lemma_parsed_stops(ls, k + 1);
    } else {
        assert(ls.subrange(0, k) =~= ls);
    }
}

} // verus!
