//! The scoreboard: players ranked by score and the text that shows them.
use vstd::prelude::*;

use crate::text::{decimal, decimal_string, push_char};

verus! {

/// One player's line on the scoreboard.
#[derive(Debug)]
pub struct ScoreLine {
    pub id: u64,
    pub name: String,
    pub score: u32,
}

/// Scores never rise down the list.
pub open spec fn ranked_by_score(s: Seq<ScoreLine>) -> bool {
    forall|a: int, b: int| 0 <= a < b < s.len() ==> (#[trigger] s[a]).score >= (#[trigger] s[b]).score
}

fn copy_line(l: &ScoreLine) -> (c: ScoreLine)
    ensures
        c == *l,
{
    ScoreLine { id: l.id, name: l.name.clone(), score: l.score }
}

proof fn lemma_insert_multiset(s: Seq<ScoreLine>, k: int, x: ScoreLine)
    requires
        0 <= k <= s.len(),
    ensures
        s.insert(k, x).to_multiset() =~= s.to_multiset().insert(x),
{
    broadcast use vstd::seq_lib::group_to_multiset_ensures;

    let t = s.insert(k, x);
    assert(t.remove(k) =~= s);
    assert(t[k] == x);
    assert(t.remove(k).to_multiset() =~= t.to_multiset().remove(x));
    assert(t.contains(x));
    assert(t.to_multiset().count(x) > 0);
}

/// Orders the players by score, highest first.
pub fn rank_by_score(lines: &Vec<ScoreLine>) -> (ranked: Vec<ScoreLine>)
    ensures
        ranked@.len() == lines@.len(),
        ranked@.to_multiset() == lines@.to_multiset(),
        ranked_by_score(ranked@),
{
    broadcast use vstd::seq_lib::group_to_multiset_ensures;

    let n = lines.len();
    let mut ranked: Vec<ScoreLine> = Vec::new();
    let mut i: usize = 0;
    while i < n
        invariant
            n == lines@.len(),
            i <= n,
            ranked@.len() == i,
            ranked@.to_multiset() == lines@.subrange(0, i as int).to_multiset(),
            ranked_by_score(ranked@),
        decreases n - i,
    {
        let x = copy_line(&lines[i]);
        let mut k: usize = 0;
        while k < ranked.len() && ranked[k].score >= x.score
            invariant
                k <= ranked@.len(),
                forall|a: int| 0 <= a < k ==> (#[trigger] ranked@[a]).score >= x.score,
            decreases ranked@.len() - k,
        {
            k = k + 1;
        }
        let ghost before = ranked@;
        ranked.insert(k, x);
        proof {
            before.insert_ensures(k as int, x);
            lemma_insert_multiset(before, k as int, x);
            assert(lines@.subrange(0, i + 1) =~= lines@.subrange(0, i as int).push(lines@[i as int]));
            assert(x == lines@[i as int]);
            assert(ranked@ == before.insert(k as int, x));
            lines@.subrange(0, i as int).to_multiset_ensures();
            assert(lines@.subrange(0, i as int).push(x).to_multiset() =~= lines@.subrange(0, i as int).to_multiset().insert(x));
            assert(ranked@.to_multiset() =~= lines@.subrange(0, i + 1).to_multiset());
            assert forall|a: int, b: int| 0 <= a < b < ranked@.len() implies (#[trigger] ranked@[a]).score
                >= (#[trigger] ranked@[b]).score by {
                if b < k {
                } else if b == k {
                    assert(ranked@[a] == before[a]);
                } else if a < k {
                    assert(ranked@[b] == before[b - 1]);
                    assert(before[k as int].score < x.score || k == before.len());
                    assert(ranked@[a] == before[a]);
                    if k < before.len() {
                        assert(before[a].score >= before[b - 1].score);
                    }
                } else if a == k {
                    assert(ranked@[b] == before[b - 1]);
                    assert(k < before.len());
                    assert(before[k as int].score < x.score);
                    assert(before[k as int].score >= before[b - 1].score || k == b - 1);
                } else {
                    assert(ranked@[a] == before[a - 1]);
                    assert(ranked@[b] == before[b - 1]);
                }
            }
        }
        i = i + 1;
    }
    proof {
        assert(lines@.subrange(0, n as int) =~= lines@);
    }
    ranked
}

/// The heading of the scoreboard.
pub open spec fn scores_heading() -> Seq<char> {
    "=== Scores ==="@
}

/// The lines after the heading: `\n<name>: <score>` per player.
pub open spec fn score_lines_text(s: Seq<ScoreLine>) -> Seq<char>
    decreases s.len(),
{
    if s.len() == 0 {
        Seq::empty()
    } else {
        score_lines_text(s.drop_last()) + "\n"@ + s.last().name@ + ": "@ + decimal(s.last().score as nat)
    }
}

/// The scoreboard text for ranked players: the heading, then a line per
/// player, or a waiting note when nobody plays.
pub open spec fn scoreboard_text_of(s: Seq<ScoreLine>) -> Seq<char> {
    if s.len() == 0 {
        scores_heading() + "\nWaiting..."@
    } else {
        scores_heading() + score_lines_text(s)
    }
}

/// Writes the scoreboard shown in the corner of the client.
pub fn scoreboard_text(ranked: &Vec<ScoreLine>) -> (text: String)
    ensures
        text@ == scoreboard_text_of(ranked@),
{
    let mut text = String::from_str("=== Scores ===");
    if ranked.len() == 0 {
        text.append("\nWaiting...");
        return text;
    }
    let n = ranked.len();
    let mut i: usize = 0;
    while i < n
        invariant
            n == ranked@.len(),
            n > 0,
            i <= n,
            text@ == scores_heading() + score_lines_text(ranked@.subrange(0, i as int)),
        decreases n - i,
    {
        let ghost prev = text@;
        text.append("\n");
        text.append(ranked[i].name.as_str());
        text.append(": ");
        let num = decimal_string(ranked[i].score as u64);
        text.append(num.as_str());
        proof {
            let s = ranked@.subrange(0, i + 1);
            assert(s.drop_last() =~= ranked@.subrange(0, i as int));
            assert(s.last() == ranked@[i as int]);
            assert(text@ =~= scores_heading() + score_lines_text(s));
        }
        i = i + 1;
    }
    proof {
        assert(ranked@.subrange(0, n as int) =~= ranked@);
    }
    text
}

/// The lines after the heading when players are shown by number:
/// `\nP<id mod 1000>: <score>`.
pub open spec fn id_lines_text(s: Seq<ScoreLine>) -> Seq<char>
    decreases s.len(),
{
    if s.len() == 0 {
        Seq::empty()
    } else {
        id_lines_text(s.drop_last()) + "\nP"@ + decimal((s.last().id % 1000) as nat) + ": "@ + decimal(
            s.last().score as nat,
        )
    }
}

/// The scoreboard text that shows players by the last three digits of their
/// id instead of their name.
pub open spec fn id_scoreboard_text_of(s: Seq<ScoreLine>) -> Seq<char> {
    if s.len() == 0 {
        scores_heading() + "\nWaiting..."@
    } else {
        scores_heading() + id_lines_text(s)
    }
}

/// Writes the scoreboard that shows players by number.
pub fn scoreboard_text_by_id(ranked: &Vec<ScoreLine>) -> (text: String)
    ensures
        text@ == id_scoreboard_text_of(ranked@),
{
    let mut text = String::from_str("=== Scores ===");
    if ranked.len() == 0 {
        text.append("\nWaiting...");
        return text;
    }
    let n = ranked.len();
    let mut i: usize = 0;
    while i < n
        invariant
            n == ranked@.len(),
            n > 0,
            i <= n,
            text@ == scores_heading() + id_lines_text(ranked@.subrange(0, i as int)),
        decreases n - i,
    {
        text.append("\nP");
        let short = decimal_string(ranked[i].id % 1000);
        text.append(short.as_str());
        text.append(": ");
        let num = decimal_string(ranked[i].score as u64);
        text.append(num.as_str());
        proof {
            let s = ranked@.subrange(0, i + 1);
            assert(s.drop_last() =~= ranked@.subrange(0, i as int));
            assert(s.last() == ranked@[i as int]);
            assert(text@ =~= scores_heading() + id_lines_text(s));
        }
        i = i + 1;
    }
    proof {
        assert(ranked@.subrange(0, n as int) =~= ranked@);
    }
    text
}

/// The rank marker of the server scoreboard: medals for the first three
/// places, `#<place>` after them.
pub open spec fn rank_label_of(rank: nat) -> Seq<char> {
    if rank == 0 {
        seq!['\u{1f947}']
    } else if rank == 1 {
        seq!['\u{1f948}']
    } else if rank == 2 {
        seq!['\u{1f949}']
    } else {
        seq!['#'] + decimal(rank + 1)
    }
}

/// Writes the rank marker for a place counted from 0.
pub fn rank_label(rank: usize) -> (label: String)
    requires
        rank < usize::MAX,
    ensures
        label@ == rank_label_of(rank as nat),
{
    let mut label = String::new();
    if rank == 0 {
        push_char(&mut label, '\u{1f947}');
    } else if rank == 1 {
        push_char(&mut label, '\u{1f948}');
    } else if rank == 2 {
        push_char(&mut label, '\u{1f949}');
    } else {
        push_char(&mut label, '#');
        let num = decimal_string((rank + 1) as u64);
        label.append(num.as_str());
    }
    label
}

/// One entry of the server scoreboard: `<rank>  <name>  \u{2014}  <score>\u{5206}`.
pub open spec fn ranked_entry_text_of(rank: nat, name: Seq<char>, score: nat) -> Seq<char> {
    rank_label_of(rank) + seq![' ', ' '] + name + seq![' ', ' ', '\u{2014}', ' ', ' '] + decimal(score) + seq![
        '\u{5206}',
    ]
}

/// Writes one entry of the server scoreboard.
pub fn ranked_entry_text(rank: usize, name: &str, score: u32) -> (text: String)
    requires
        rank < usize::MAX,
    ensures
        text@ == ranked_entry_text_of(rank as nat, name@, score as nat),
{
    let mut text = rank_label(rank);
    push_char(&mut text, ' ');
    push_char(&mut text, ' ');
    text.append(name);
    push_char(&mut text, ' ');
    push_char(&mut text, ' ');
    push_char(&mut text, '\u{2014}');
    push_char(&mut text, ' ');
    push_char(&mut text, ' ');
    let num = decimal_string(score as u64);
    text.append(num.as_str());
    push_char(&mut text, '\u{5206}');
    proof {
        assert(text@ =~= ranked_entry_text_of(rank as nat, name@, score as nat));
    }
    text
}

/// Some ranking of the players, highest score first, that `r` is.
pub open spec fn is_ranking_of(r: Seq<ScoreLine>, players: Seq<ScoreLine>) -> bool {
    r.to_multiset() == players.to_multiset() && ranked_by_score(r)
}

/// Writes the client's scoreboard for the players in the order they come:
/// the text of a ranking of them by score.
pub fn update_scoreboard(players: &Vec<ScoreLine>) -> (text: String)
    ensures
        exists|r: Seq<ScoreLine>| #[trigger] is_ranking_of(r, players@) && text@ == scoreboard_text_of(r),
{
    let ranked = rank_by_score(players);
    let text = scoreboard_text(&ranked);
    assert(is_ranking_of(ranked@, players@));
    text
}

/// The heading of the server's scoreboard panel.
pub open spec fn panel_title() -> Seq<char> {
    "=== \u{6392}\u{884c}\u{699c} ==="@
}

/// The hint the server's panel shows while nobody plays.
pub open spec fn panel_empty_hint() -> Seq<char> {
    "\u{7b49}\u{5f85}\u{73a9}\u{5bb6}\u{52a0}\u{5165}..."@
}

/// The lines of the server's scoreboard panel for a ranking: the heading,
/// then one entry per player, or the hint when nobody plays.
pub open spec fn panel_lines_of(r: Seq<ScoreLine>) -> Seq<Seq<char>> {
    if r.len() == 0 {
        seq![panel_title(), panel_empty_hint()]
    } else {
        seq![panel_title()] + Seq::new(
            r.len(),
            |i: int| ranked_entry_text_of(i as nat, r[i].name@, r[i].score as nat),
        )
    }
}

/// The texts of a list of strings.
pub open spec fn texts_of(v: Seq<String>) -> Seq<Seq<char>> {
    v.map_values(|s: String| s@)
}

/// Writes the lines of the server's scoreboard panel for the players in the
/// order they come: those of a ranking of them by score.
pub fn scoreboard_entries(players: &Vec<ScoreLine>) -> (lines: Vec<String>)
    ensures
        exists|r: Seq<ScoreLine>| #[trigger] is_ranking_of(r, players@) && texts_of(lines@) == panel_lines_of(r),
{
    let ranked = rank_by_score(players);
    let mut lines: Vec<String> = Vec::new();
    lines.push(String::from_str("=== \u{6392}\u{884c}\u{699c} ==="));
    if ranked.len() == 0 {
        lines.push(String::from_str("\u{7b49}\u{5f85}\u{73a9}\u{5bb6}\u{52a0}\u{5165}..."));
        assert(texts_of(lines@) =~= panel_lines_of(ranked@));
        assert(is_ranking_of(ranked@, players@));
        return lines;
    }
    let n = ranked.len();
    let mut i: usize = 0;
    while i < n
        invariant
            n == ranked@.len(),
            n > 0,
            i <= n,
            lines@.len() == i + 1,
            lines@[0]@ == panel_title(),
            forall|k: int|
                0 <= k < i ==> (#[trigger] lines@[k + 1])@ == ranked_entry_text_of(
                    k as nat,
                    ranked@[k].name@,
                    ranked@[k].score as nat,
                ),
        decreases n - i,
    {
        let entry = ranked_entry_text(i, ranked[i].name.as_str(), ranked[i].score);
        lines.push(entry);
        i = i + 1;
    }
    assert(texts_of(lines@) =~= panel_lines_of(ranked@));
    assert(is_ranking_of(ranked@, players@));
    lines
}

/// The scoreboard grows by one line per player: one more ranked player adds
/// exactly the line `\n<name>: <score>` at the end, and a single player's
/// board is the heading and that player's line.
pub proof fn lemma_scoreboard_line_per_player(s: Seq<ScoreLine>, x: ScoreLine)
    ensures
        s.len() > 0 ==> scoreboard_text_of(s.push(x)) == scoreboard_text_of(s) + "\n"@ + x.name@ + ": "@
            + decimal(x.score as nat),
        scoreboard_text_of(seq![x]) == scores_heading() + "\n"@ + x.name@ + ": "@ + decimal(x.score as nat),
{
    assert(s.push(x).drop_last() =~= s);
    assert(seq![x].drop_last() =~= Seq::<ScoreLine>::empty());
    let lines = score_lines_text(s);
    assert(scores_heading() + (lines + "\n"@ + x.name@ + ": "@ + decimal(x.score as nat)) =~= scores_heading()
        + lines + "\n"@ + x.name@ + ": "@ + decimal(x.score as nat));
    assert(score_lines_text(Seq::<ScoreLine>::empty()) + "\n"@ + x.name@ + ": "@ + decimal(x.score as nat)
        =~= "\n"@ + x.name@ + ": "@ + decimal(x.score as nat));
    assert(scores_heading() + ("\n"@ + x.name@ + ": "@ + decimal(x.score as nat)) =~= scores_heading() + "\n"@
        + x.name@ + ": "@ + decimal(x.score as nat));
}

/// The board by number grows by one line per player in the same way.
pub proof fn lemma_id_scoreboard_line_per_player(s: Seq<ScoreLine>, x: ScoreLine)
    ensures
        s.len() > 0 ==> id_scoreboard_text_of(s.push(x)) == id_scoreboard_text_of(s) + "\nP"@ + decimal(
            (x.id % 1000) as nat,
        ) + ": "@ + decimal(x.score as nat),
{
    assert(s.push(x).drop_last() =~= s);
    let lines = id_lines_text(s);
    assert(scores_heading() + (lines + "\nP"@ + decimal((x.id % 1000) as nat) + ": "@ + decimal(x.score as nat))
        =~= scores_heading() + lines + "\nP"@ + decimal((x.id % 1000) as nat) + ": "@ + decimal(
        x.score as nat,
    ));
}

/// The server's panel has the heading and then one entry per ranked
/// player, in rank order, or the heading and the hint when nobody plays.
pub proof fn lemma_panel_entry_per_player(r: Seq<ScoreLine>)
    ensures
        panel_lines_of(r)[0] == panel_title(),
        r.len() == 0 ==> panel_lines_of(r).len() == 2 && panel_lines_of(r)[1] == panel_empty_hint(),
        r.len() > 0 ==> panel_lines_of(r).len() == r.len() + 1,
        r.len() > 0 ==> forall|k: int|
            0 <= k < r.len() ==> #[trigger] panel_lines_of(r)[k + 1] == rank_label_of(k as nat) + seq![' ', ' ']
                + r[k].name@ + seq![' ', ' ', '\u{2014}', ' ', ' '] + decimal(r[k].score as nat) + seq!['\u{5206}'],
{
}

} // verus!
