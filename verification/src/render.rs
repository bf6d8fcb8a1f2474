//! Rendering a decoded entry as display lines.
//!
//! Every logical item is exactly one line; colouring is left to the caller.
//! In detailed mode everything is shown; otherwise at most `limit`
//! definitions per meaning, an example only on the first definition, and a
//! truncation hint when definitions were left out.

use vstd::prelude::*;

use crate::model::{Definition, DefinitionView, DisplayOptions, LookupResult, LookupResultView,
    Meaning, MeaningView, PhoneticView};
use crate::text::{dec_digits, dec_str, joined, join_comma};

verus! {

/// How many definitions of a meaning with `total` definitions are shown.
pub open spec fn shown_count(total: nat, detailed: bool, limit: nat) -> nat {
    if detailed {
        total
    } else if total < limit {
        total
    } else {
        limit
    }
}

/// A labelled, comma-joined word list line, or nothing when the list is
/// absent or empty or `show` is false.
pub open spec fn list_lines(l: Option<Seq<Seq<char>>>, show: bool, label: Seq<char>) -> Seq<
    Seq<char>,
> {
    match l {
        Some(items) => if show && items.len() > 0 {
            seq![label + joined(items)]
        } else {
            Seq::empty()
        },
        None => Seq::empty(),
    }
}

/// The example line of a definition, or nothing when there is no example or
/// `show` is false.
pub open spec fn example_lines(e: Option<Seq<char>>, show: bool) -> Seq<Seq<char>> {
    match e {
        Some(t) => if show {
            seq!["     Example: "@ + t]
        } else {
            Seq::empty()
        },
        None => Seq::empty(),
    }
}

/// The numbered definition line for the definition at position `idx`.
pub open spec fn def_line(idx: nat, text: Seq<char>) -> Seq<char> {
    "  "@ + dec_digits(idx + 1) + ". "@ + text
}

/// The lines of one definition: the numbered text, then the example when
/// detailed or first, then the word lists when detailed.
pub open spec fn def_block(d: DefinitionView, idx: nat, detailed: bool) -> Seq<Seq<char>> {
    seq![def_line(idx, d.definition)] + example_lines(d.example, detailed || idx == 0)
        + list_lines(d.synonyms, detailed, "     Synonyms: "@)
        + list_lines(d.antonyms, detailed, "     Antonyms: "@)
}

/// The lines of the first `n` definitions, in order.
pub open spec fn def_blocks(defs: Seq<DefinitionView>, n: nat, detailed: bool) -> Seq<Seq<char>>
    decreases n,
{
    if n == 0 {
        Seq::empty()
    } else {
        def_blocks(defs, (n - 1) as nat, detailed) + def_block(
            defs[n - 1],
            (n - 1) as nat,
            detailed,
        )
    }
}

/// The part-of-speech line; an absent part of speech reads `unknown`.
pub open spec fn pos_line(p: Option<Seq<char>>) -> Seq<char> {
    "Part of speech: "@ + match p {
        Some(s) => s,
        None => "unknown"@,
    }
}

/// The truncation hint, shown only when definitions were left out.
pub open spec fn hint_lines(total: nat, detailed: bool, limit: nat) -> Seq<Seq<char>> {
    if !detailed && total > limit {
        seq!["     ... (+"@ + dec_digits((total - limit) as nat) + " more, use -d for all)"@]
    } else {
        Seq::empty()
    }
}

/// The lines of one meaning: part of speech, the shown definitions, the
/// truncation hint, the meaning-level word lists, a closing blank line.
pub open spec fn meaning_block(m: MeaningView, detailed: bool, limit: nat) -> Seq<Seq<char>> {
    seq![pos_line(m.part_of_speech)] + def_blocks(
        m.definitions,
        shown_count(m.definitions.len(), detailed, limit),
        detailed,
    ) + hint_lines(m.definitions.len(), detailed, limit)
        + list_lines(m.synonyms, detailed, "  Synonyms: "@)
        + list_lines(m.antonyms, detailed, "  Antonyms: "@) + seq![Seq::<char>::empty()]
}

/// The lines of all meanings, in order.
pub open spec fn meaning_blocks(ms: Seq<MeaningView>, detailed: bool, limit: nat) -> Seq<
    Seq<char>,
>
    decreases ms.len(),
{
    if ms.len() == 0 {
        Seq::empty()
    } else {
        meaning_blocks(ms.drop_last(), detailed, limit) + meaning_block(
            ms.last(),
            detailed,
            limit,
        )
    }
}

/// One pronunciation line per entry whose text is present, in order.
pub open spec fn pron_lines(ps: Seq<PhoneticView>) -> Seq<Seq<char>>
    decreases ps.len(),
{
    if ps.len() == 0 {
        Seq::empty()
    } else {
        pron_lines(ps.drop_last()) + match ps.last().text {
            Some(t) => seq!["Pronunciation: "@ + t],
            None => Seq::<Seq<char>>::empty(),
        }
    }
}

/// The header: a blank line, the headword, the optional phonetic, the
/// pronunciations, a closing blank line.
pub open spec fn header_lines(r: LookupResultView) -> Seq<Seq<char>> {
    seq![Seq::<char>::empty(), "Word: "@ + r.word] + (match r.phonetic {
        Some(p) => seq!["Phonetic: "@ + p],
        None => Seq::<Seq<char>>::empty(),
    }) + (match r.phonetics {
        Some(ps) => pron_lines(ps),
        None => Seq::<Seq<char>>::empty(),
    }) + seq![Seq::<char>::empty()]
}

/// The source line: only the first source URL, and only when detailed.
pub open spec fn source_lines(r: LookupResultView, detailed: bool) -> Seq<Seq<char>> {
    match r.source_urls {
        Some(urls) => if detailed && urls.len() > 0 {
            seq!["Source: "@ + urls[0]]
        } else {
            Seq::empty()
        },
        None => Seq::empty(),
    }
}

/// Every line that rendering one entry produces, in order.
pub open spec fn spec_render(r: LookupResultView, detailed: bool, limit: nat) -> Seq<Seq<char>> {
    header_lines(r) + meaning_blocks(r.meanings, detailed, limit) + source_lines(r, detailed)
}

/// A non-empty list as one comma-joined string; an absent or empty list
/// yields nothing.
pub open spec fn spec_format_list(items: Option<Seq<Seq<char>>>) -> Option<Seq<char>> {
    match items {
        Some(l) => if l.len() > 0 {
            Some(joined(l))
        } else {
            None
        },
        None => None,
    }
}

/// Formats a non-empty list as `item1, item2, ...`; absent and empty lists
/// yield `None`.
pub fn format_list(items: &Option<Vec<String>>) -> (r: Option<String>)
    ensures
        r.deep_view() == spec_format_list(items.deep_view()),
{
    match items {
        Some(v) => {
            if v.len() > 0 {
                Some(join_comma(v))
            } else {
                None
            }
        },
        None => None,
    }
}

/// Renders one definition.
pub fn render_definition(d: &Definition, idx: usize, detailed: bool) -> (lines: Vec<String>)
    requires
        idx < usize::MAX,
    ensures
        lines.deep_view() == def_block(d@, idx as nat, detailed),
{
    let mut lines: Vec<String> = Vec::new();
    let num = dec_str((idx + 1) as u64);
    let mut l = String::from_str("  ");
    l.append(num.as_str());
    l.append(". ");
    l.append(d.definition.as_str());
    lines.push(l);
    if detailed || idx == 0 {
        match &d.example {
            Some(e) => {
                let mut le = String::from_str("     Example: ");
                le.append(e.as_str());
                lines.push(le);
            },
            None => {},
        }
    }
    if detailed {
        match format_list(&d.synonyms) {
            Some(s) => {
                let mut ls = String::from_str("     Synonyms: ");
                ls.append(s.as_str());
                lines.push(ls);
            },
            None => {},
        }
        match format_list(&d.antonyms) {
            Some(s) => {
                let mut ls = String::from_str("     Antonyms: ");
                ls.append(s.as_str());
                lines.push(ls);
            },
            None => {},
        }
    }
    proof {
        assert(lines.deep_view() =~~= def_block(d@, idx as nat, detailed));
    }
    lines
}

/// Renders one meaning.
pub fn render_meaning(m: &Meaning, detailed: bool, limit: usize) -> (lines: Vec<String>)
    ensures
        lines.deep_view() == meaning_block(m@, detailed, limit as nat),
{
    let mut lines: Vec<String> = Vec::new();
    let mut lp = String::from_str("Part of speech: ");
    match &m.part_of_speech {
        Some(p) => lp.append(p.as_str()),
        None => lp.append("unknown"),
    }
    lines.push(lp);
    let total = m.definitions.len();
    let shown = if detailed {
        total
    } else if total < limit {
        total
    } else {
        limit
    };
    let ghost shown_spec = shown_count(m@.definitions.len(), detailed, limit as nat);
    proof {
        assert(m@.definitions.len() == m.definitions@.len());
        assert(shown as nat == shown_spec);
        assert(lines.deep_view() =~~= seq![pos_line(m@.part_of_speech)] + def_blocks(
            m@.definitions,
            0,
            detailed,
        ));
    }
    let mut i: usize = 0;
    while i < shown
        invariant
            i <= shown,
            shown <= m.definitions@.len(),
            shown as nat == shown_count(m@.definitions.len(), detailed, limit as nat),
            m@ == m.view(),
            lines.deep_view() == seq![pos_line(m@.part_of_speech)] + def_blocks(
                m@.definitions,
                i as nat,
                detailed,
            ),
        decreases shown - i,
    {
        let mut block = render_definition(&m.definitions[i], i, detailed);
        let ghost old_dv = lines.deep_view();
        let ghost block_dv = block.deep_view();
        lines.append(&mut block);
        proof {
            assert(m@.definitions[i as int] == m.definitions@[i as int]@);
            assert(lines.deep_view() =~~= old_dv + block_dv);
        }
        i = i + 1;
    }
    if !detailed && total > shown {
        let mut lh = String::from_str("     ... (+");
        let omitted = dec_str((total - shown) as u64);
        lh.append(omitted.as_str());
        lh.append(" more, use -d for all)");
        lines.push(lh);
    }
    if detailed {
        match format_list(&m.synonyms) {
            Some(s) => {
                let mut ls = String::from_str("  Synonyms: ");
                ls.append(s.as_str());
                lines.push(ls);
            },
            None => {},
        }
        match format_list(&m.antonyms) {
            Some(s) => {
                let mut ls = String::from_str("  Antonyms: ");
                ls.append(s.as_str());
                lines.push(ls);
            },
            None => {},
        }
    }
    lines.push(String::new());
    proof {
        assert(lines.deep_view() =~~= meaning_block(m@, detailed, limit as nat));
    }
    lines
}

/// Renders one decoded entry as its ordered sequence of display lines.
pub fn render(result: &LookupResult, options: &DisplayOptions) -> (lines: Vec<String>)
    ensures
        lines.deep_view() == spec_render(result@, options.detailed, options.limit as nat),
{
    let detailed = options.detailed;
    let limit = options.limit;
    let mut lines: Vec<String> = Vec::new();
    lines.push(String::new());
    let mut lw = String::from_str("Word: ");
    lw.append(result.word.as_str());
    lines.push(lw);
    match &result.phonetic {
        Some(p) => {
            let mut l = String::from_str("Phonetic: ");
            l.append(p.as_str());
            lines.push(l);
        },
        None => {},
    }
    let ghost base = lines.deep_view();
    let ghost phon_part = match result@.phonetic {
        Some(p) => seq!["Phonetic: "@ + p],
        None => Seq::<Seq<char>>::empty(),
    };
    proof {
        assert(base =~~= seq![Seq::<char>::empty(), "Word: "@ + result@.word] + phon_part);
    }
    match &result.phonetics {
        Some(ps) => {
            proof {
                assert(result@.phonetics == Some(ps.deep_view()));
            }
            let ghost pv = ps.deep_view();
            let n = ps.len();
            let mut i: usize = 0;
            proof {
                assert(pv.subrange(0, 0) =~= Seq::<PhoneticView>::empty());
                assert(lines.deep_view() =~~= base + pron_lines(pv.subrange(0, 0)));
            }
            while i < n
                invariant
                    i <= n,
                    n == ps@.len(),
                    pv == ps.deep_view(),
                    pv.len() == n,
                    forall|k: int| 0 <= k < n ==> pv[k] == ps@[k]@,
                    lines.deep_view() == base + pron_lines(pv.subrange(0, i as int)),
                decreases n - i,
            {
                let ghost old_dv = lines.deep_view();
                proof {
                    let pre = pv.subrange(0, i as int);
                    let cur = pv.subrange(0, i + 1);
                    assert(cur.drop_last() =~= pre);
                    assert(cur.last() == pv[i as int]);
                    assert(pv[i as int] == ps@[i as int]@);
                }
                match &ps[i].text {
                    Some(t) => {
                        let mut l = String::from_str("Pronunciation: ");
                        l.append(t.as_str());
                        let ghost lv = l@;
                        lines.push(l);
                        proof {
                            let pre = pv.subrange(0, i as int);
                            let cur = pv.subrange(0, i + 1);
                            assert(pron_lines(cur) == pron_lines(pre) + seq![
                                "Pronunciation: "@ + t@,
                            ]);
                            assert(lines.deep_view() =~~= old_dv.push(lv));
                            assert(old_dv.push(lv) =~~= base + pron_lines(cur));
                        }
                    },
                    None => {
                        proof {
                            let pre = pv.subrange(0, i as int);
                            let cur = pv.subrange(0, i + 1);
                            assert(pron_lines(cur) == pron_lines(pre) + Seq::<
                                Seq<char>,
                            >::empty());
                            assert(lines.deep_view() =~~= base + pron_lines(cur));
                        }
                    },
                }
                i = i + 1;
            }
            proof {
                assert(pv.subrange(0, n as int) =~= pv);
            }
        },
        None => {},
    }
    let ghost pron_part = match result@.phonetics {
        Some(ps) => pron_lines(ps),
        None => Seq::<Seq<char>>::empty(),
    };
    proof {
        assert(lines.deep_view() =~~= base + pron_part);
    }
    let ghost before_blank = lines.deep_view();
    lines.push(String::new());
    let ghost header = header_lines(result@);
    proof {
        assert(lines.deep_view() =~~= before_blank.push(Seq::<char>::empty()));
        assert(before_blank.push(Seq::<char>::empty()) =~~= header);
    }
    let n = result.meanings.len();
    let mut i: usize = 0;
    proof {
        assert(result@.meanings.subrange(0, 0) =~= Seq::<MeaningView>::empty());
        assert(lines.deep_view() =~~= header + meaning_blocks(
            result@.meanings.subrange(0, 0),
            detailed,
            limit as nat,
        ));
    }
    while i < n
        invariant
            i <= n,
            n == result.meanings@.len(),
            result@ == result.view(),
            result@.meanings.len() == n,
            forall|k: int| 0 <= k < n ==> result@.meanings[k] == result.meanings@[k]@,
            header == header_lines(result@),
            detailed == options.detailed,
            limit == options.limit,
            lines.deep_view() == header + meaning_blocks(
                result@.meanings.subrange(0, i as int),
                detailed,
                limit as nat,
            ),
        decreases n - i,
    {
        let mut block = render_meaning(&result.meanings[i], detailed, limit);
        let ghost old_dv = lines.deep_view();
        let ghost block_dv = block.deep_view();
        lines.append(&mut block);
        proof {
            let ms = result@.meanings;
            let pre = ms.subrange(0, i as int);
            let cur = ms.subrange(0, i + 1);
            assert(cur.drop_last() =~= pre);
            assert(cur.last() == ms[i as int]);
            assert(lines.deep_view() =~~= old_dv + block_dv);
            assert(lines.deep_view() =~~= header + meaning_blocks(cur, detailed, limit as nat));
        }
        i = i + 1;
    }
    proof {
        assert(result@.meanings.subrange(0, n as int) =~= result@.meanings);
    }
    if detailed {
        match &result.source_urls {
            Some(urls) => {
                if urls.len() > 0 {
                    let mut l = String::from_str("Source: ");
                    l.append(urls[0].as_str());
                    lines.push(l);
                }
            },
            None => {},
        }
    }
    proof {
        assert(lines.deep_view() =~~= spec_render(result@, detailed, limit as nat));
    }
    lines
}

proof fn lemma_add_contains<T>(a: Seq<T>, b: Seq<T>, x: T)
    requires
        a.contains(x) || b.contains(x),
    ensures
        (a + b).contains(x),
{
    if a.contains(x) {
        let i = choose|i: int| 0 <= i < a.len() && a[i] == x;
        assert((a + b)[i] == x);
    } else {
        let i = choose|i: int| 0 <= i < b.len() && b[i] == x;
        assert((a + b)[a.len() + i] == x);
    }
}

proof fn lemma_def_blocks_contain(
    defs: Seq<DefinitionView>,
    n: nat,
    detailed: bool,
    i: int,
    x: Seq<char>,
)
    requires
        0 <= i < n,
        def_block(defs[i], i as nat, detailed).contains(x),
    ensures
        def_blocks(defs, n, detailed).contains(x),
    decreases n,
{
    if i == n - 1 {
        lemma_add_contains(
            def_blocks(defs, (n - 1) as nat, detailed),
            def_block(defs[n - 1], (n - 1) as nat, detailed),
            x,
        );
    } else {
        lemma_def_blocks_contain(defs, (n - 1) as nat, detailed, i, x);
        lemma_add_contains(
            def_blocks(defs, (n - 1) as nat, detailed),
            def_block(defs[n - 1], (n - 1) as nat, detailed),
            x,
        );
    }
}

proof fn lemma_meaning_block_contains(m: MeaningView, detailed: bool, limit: nat, x: Seq<char>)
    requires
        def_blocks(m.definitions, shown_count(m.definitions.len(), detailed, limit), detailed)
            .contains(x) || list_lines(m.synonyms, detailed, "  Synonyms: "@).contains(x)
            || list_lines(m.antonyms, detailed, "  Antonyms: "@).contains(x),
    ensures
        meaning_block(m, detailed, limit).contains(x),
{
    let pos = seq![pos_line(m.part_of_speech)];
    let blocks = def_blocks(
        m.definitions,
        shown_count(m.definitions.len(), detailed, limit),
        detailed,
    );
    let hint = hint_lines(m.definitions.len(), detailed, limit);
    let syn = list_lines(m.synonyms, detailed, "  Synonyms: "@);
    let ant = list_lines(m.antonyms, detailed, "  Antonyms: "@);
    let blank = seq![Seq::<char>::empty()];
    if blocks.contains(x) {
        lemma_add_contains(pos, blocks, x);
        lemma_add_contains(pos + blocks, hint, x);
        lemma_add_contains(pos + blocks + hint, syn, x);
    } else if syn.contains(x) {
        lemma_add_contains(pos + blocks + hint, syn, x);
    }
    lemma_add_contains(pos + blocks + hint + syn, ant, x);
    lemma_add_contains(pos + blocks + hint + syn + ant, blank, x);
}

proof fn lemma_meaning_blocks_contain(
    ms: Seq<MeaningView>,
    detailed: bool,
    limit: nat,
    k: int,
    x: Seq<char>,
)
    requires
        0 <= k < ms.len(),
        meaning_block(ms[k], detailed, limit).contains(x),
    ensures
        meaning_blocks(ms, detailed, limit).contains(x),
    decreases ms.len(),
{
    if k == ms.len() - 1 {
        lemma_add_contains(
            meaning_blocks(ms.drop_last(), detailed, limit),
            meaning_block(ms.last(), detailed, limit),
            x,
        );
    } else {
        lemma_meaning_blocks_contain(ms.drop_last(), detailed, limit, k, x);
        lemma_add_contains(
            meaning_blocks(ms.drop_last(), detailed, limit),
            meaning_block(ms.last(), detailed, limit),
            x,
        );
    }
}

proof fn lemma_render_contains_meaning_line(
    r: LookupResultView,
    detailed: bool,
    limit: nat,
    k: int,
    x: Seq<char>,
)
    requires
        0 <= k < r.meanings.len(),
        meaning_block(r.meanings[k], detailed, limit).contains(x),
    ensures
        spec_render(r, detailed, limit).contains(x),
{
    lemma_meaning_blocks_contain(r.meanings, detailed, limit, k, x);
    lemma_add_contains(header_lines(r), meaning_blocks(r.meanings, detailed, limit), x);
    lemma_add_contains(
        header_lines(r) + meaning_blocks(r.meanings, detailed, limit),
        source_lines(r, detailed),
        x,
    );
}

/// In detailed mode the rendering is complete: it holds the numbered line of
/// every definition, the example line of every definition that has one, the
/// labelled line of every present, non-empty word list — at the definition
/// and at the meaning level — and the line of the first source URL.
pub proof fn lemma_render_detailed_complete(r: LookupResultView, limit: nat)
    ensures
        forall|k: int, i: int|
            0 <= k < r.meanings.len() && 0 <= i < r.meanings[k].definitions.len() ==> spec_render(
                r,
                true,
                limit,
            ).contains(
                def_line(i as nat, (#[trigger] r.meanings[k].definitions[i]).definition),
            ),
        forall|k: int, i: int|
            0 <= k < r.meanings.len() && 0 <= i < r.meanings[k].definitions.len()
                && (#[trigger] r.meanings[k].definitions[i]).example is Some ==> spec_render(
                r,
                true,
                limit,
            ).contains("     Example: "@ + r.meanings[k].definitions[i].example->Some_0),
        forall|k: int, i: int|
            0 <= k < r.meanings.len() && 0 <= i < r.meanings[k].definitions.len()
                && (#[trigger] r.meanings[k].definitions[i]).synonyms is Some
                && r.meanings[k].definitions[i].synonyms->Some_0.len() > 0 ==> spec_render(
                r,
                true,
                limit,
            ).contains("     Synonyms: "@ + joined(r.meanings[k].definitions[i].synonyms->Some_0)),
        forall|k: int, i: int|
            0 <= k < r.meanings.len() && 0 <= i < r.meanings[k].definitions.len()
                && (#[trigger] r.meanings[k].definitions[i]).antonyms is Some
                && r.meanings[k].definitions[i].antonyms->Some_0.len() > 0 ==> spec_render(
                r,
                true,
                limit,
            ).contains("     Antonyms: "@ + joined(r.meanings[k].definitions[i].antonyms->Some_0)),
        forall|k: int|
            0 <= k < r.meanings.len() && (#[trigger] r.meanings[k]).synonyms is Some
                && r.meanings[k].synonyms->Some_0.len() > 0 ==> spec_render(r, true, limit)
                .contains("  Synonyms: "@ + joined(r.meanings[k].synonyms->Some_0)),
        forall|k: int|
            0 <= k < r.meanings.len() && (#[trigger] r.meanings[k]).antonyms is Some
                && r.meanings[k].antonyms->Some_0.len() > 0 ==> spec_render(r, true, limit)
                .contains("  Antonyms: "@ + joined(r.meanings[k].antonyms->Some_0)),
        r.source_urls is Some && r.source_urls->Some_0.len() > 0 ==> spec_render(r, true, limit)
            .contains("Source: "@ + r.source_urls->Some_0[0]),
{
    assert forall|k: int, i: int|
        0 <= k < r.meanings.len() && 0 <= i
            < r.meanings[k].definitions.len() implies spec_render(r, true, limit).contains(
        def_line(i as nat, (#[trigger] r.meanings[k].definitions[i]).definition),
    ) by {
        let m = r.meanings[k];
        let d = m.definitions[i];
        let x = def_line(i as nat, d.definition);
        assert(def_block(d, i as nat, true)[0] == x);
        assert(def_block(d, i as nat, true).contains(x));
        lemma_def_blocks_contain(m.definitions, m.definitions.len(), true, i, x);
        lemma_meaning_block_contains(m, true, limit, x);
        lemma_render_contains_meaning_line(r, true, limit, k, x);
    }
    assert forall|k: int, i: int|
        0 <= k < r.meanings.len() && 0 <= i < r.meanings[k].definitions.len() && (
        #[trigger] r.meanings[k].definitions[i]).example is Some implies spec_render(
        r,
        true,
        limit,
    ).contains("     Example: "@ + r.meanings[k].definitions[i].example->Some_0) by {
        let m = r.meanings[k];
        let d = m.definitions[i];
        let x = "     Example: "@ + d.example->Some_0;
        assert(def_block(d, i as nat, true)[1] == x);
        assert(def_block(d, i as nat, true).contains(x));
        lemma_def_blocks_contain(m.definitions, m.definitions.len(), true, i, x);
        lemma_meaning_block_contains(m, true, limit, x);
        lemma_render_contains_meaning_line(r, true, limit, k, x);
    }
    assert forall|k: int, i: int|
        0 <= k < r.meanings.len() && 0 <= i < r.meanings[k].definitions.len() && (
        #[trigger] r.meanings[k].definitions[i]).synonyms is Some
        && r.meanings[k].definitions[i].synonyms->Some_0.len() > 0 implies spec_render(
        r,
        true,
        limit,
    ).contains("     Synonyms: "@ + joined(r.meanings[k].definitions[i].synonyms->Some_0)) by {
        let m = r.meanings[k];
        let d = m.definitions[i];
        let l = d.synonyms->Some_0;
        let x = "     Synonyms: "@ + joined(l);
        let block = def_block(d, i as nat, true);
        let pre = seq![def_line(i as nat, d.definition)] + example_lines(d.example, true);
        assert(block[pre.len() as int] == x);
        assert(block.contains(x));
        lemma_def_blocks_contain(m.definitions, m.definitions.len(), true, i, x);
        lemma_meaning_block_contains(m, true, limit, x);
        lemma_render_contains_meaning_line(r, true, limit, k, x);
    }
    assert forall|k: int, i: int|
        0 <= k < r.meanings.len() && 0 <= i < r.meanings[k].definitions.len() && (
        #[trigger] r.meanings[k].definitions[i]).antonyms is Some
        && r.meanings[k].definitions[i].antonyms->Some_0.len() > 0 implies spec_render(
        r,
        true,
        limit,
    ).contains("     Antonyms: "@ + joined(r.meanings[k].definitions[i].antonyms->Some_0)) by {
        let m = r.meanings[k];
        let d = m.definitions[i];
        let l = d.antonyms->Some_0;
        let x = "     Antonyms: "@ + joined(l);
        let block = def_block(d, i as nat, true);
        let pre = seq![def_line(i as nat, d.definition)] + example_lines(d.example, true)
            + list_lines(d.synonyms, true, "     Synonyms: "@);
        assert(block[pre.len() as int] == x);
        assert(block.contains(x));
        lemma_def_blocks_contain(m.definitions, m.definitions.len(), true, i, x);
        lemma_meaning_block_contains(m, true, limit, x);
        lemma_render_contains_meaning_line(r, true, limit, k, x);
    }
    assert forall|k: int|
        0 <= k < r.meanings.len() && (#[trigger] r.meanings[k]).synonyms is Some
            && r.meanings[k].synonyms->Some_0.len() > 0 implies spec_render(r, true, limit)
            .contains("  Synonyms: "@ + joined(r.meanings[k].synonyms->Some_0)) by {
        let m = r.meanings[k];
        let l = m.synonyms->Some_0;
        let x = "  Synonyms: "@ + joined(l);
        let lines = list_lines(m.synonyms, true, "  Synonyms: "@);
        assert(lines[0] == x);
        assert(lines.contains(x));
        lemma_meaning_block_contains(m, true, limit, x);
        lemma_render_contains_meaning_line(r, true, limit, k, x);
    }
    assert forall|k: int|
        0 <= k < r.meanings.len() && (#[trigger] r.meanings[k]).antonyms is Some
            && r.meanings[k].antonyms->Some_0.len() > 0 implies spec_render(r, true, limit)
            .contains("  Antonyms: "@ + joined(r.meanings[k].antonyms->Some_0)) by {
        let m = r.meanings[k];
        let l = m.antonyms->Some_0;
        let x = "  Antonyms: "@ + joined(l);
        let lines = list_lines(m.antonyms, true, "  Antonyms: "@);
        assert(lines[0] == x);
        assert(lines.contains(x));
        lemma_meaning_block_contains(m, true, limit, x);
        lemma_render_contains_meaning_line(r, true, limit, k, x);
    }
    if r.source_urls is Some && r.source_urls->Some_0.len() > 0 {
        let urls = r.source_urls->Some_0;
        let x = "Source: "@ + urls[0];
        let src = source_lines(r, true);
        assert(src[0] == x);
        assert(src.contains(x));
        lemma_add_contains(
            header_lines(r) + meaning_blocks(r.meanings, true, limit),
            src,
            x,
        );
    }
}

/// A decimal digit character.
pub open spec fn is_digit_char(c: char) -> bool {
    '0' <= c && c <= '9'
}

/// A numbered definition line: it opens with exactly two spaces and a digit.
/// No other line of a rendering does (labelled lines under a definition are
/// indented five spaces, labelled lines under a meaning open with a letter
/// after the two spaces).
pub open spec fn is_numbered_line(line: Seq<char>) -> bool {
    line.len() >= 3 && line[0] == ' ' && line[1] == ' ' && is_digit_char(line[2])
}

/// How many numbered definition lines a block of lines holds.
pub open spec fn numbered_count(lines: Seq<Seq<char>>) -> nat
    decreases lines.len(),
{
    if lines.len() == 0 {
        0
    } else {
        numbered_count(lines.drop_last()) + (if is_numbered_line(lines.last()) {
            1nat
        } else {
            0nat
        })
    }
}

proof fn lemma_numbered_count_add(a: Seq<Seq<char>>, b: Seq<Seq<char>>)
    ensures
        numbered_count(a + b) == numbered_count(a) + numbered_count(b),
    decreases b.len(),
{
    if b.len() == 0 {
        assert(a + b =~= a);
    } else {
        assert((a + b).drop_last() =~= a + b.drop_last());
        assert((a + b).last() == b.last());
        lemma_numbered_count_add(a, b.drop_last());
    }
}

proof fn lemma_numbered_count_single(l: Seq<char>)
    ensures
        numbered_count(seq![l]) == (if is_numbered_line(l) {
            1nat
        } else {
            0nat
        }),
{
    assert(seq![l].drop_last() =~= Seq::<Seq<char>>::empty());
    assert(seq![l].last() == l);
    assert(numbered_count(Seq::<Seq<char>>::empty()) == 0);
}

proof fn lemma_dec_digits_first(n: nat)
    ensures
        dec_digits(n).len() >= 1,
        is_digit_char(dec_digits(n)[0]),
    decreases n,
{
    if n >= 10 {
        lemma_dec_digits_first(n / 10);
    }
}

proof fn lemma_def_line_numbered(idx: nat, text: Seq<char>)
    ensures
        is_numbered_line(def_line(idx, text)),
{
    reveal_strlit("  ");
    reveal_strlit(". ");
    lemma_dec_digits_first(idx + 1);
    assert(def_line(idx, text)[0] == ' ');
    assert(def_line(idx, text)[1] == ' ');
    assert(def_line(idx, text)[2] == dec_digits(idx + 1)[0]);
}

proof fn lemma_example_lines_count(e: Option<Seq<char>>, show: bool)
    ensures
        numbered_count(example_lines(e, show)) == 0,
{
    reveal_strlit("     Example: ");
    match e {
        Some(t) => {
            if show {
                let l = "     Example: "@ + t;
                assert(l[2] == ' ');
                assert(!is_numbered_line(l));
                lemma_numbered_count_single(l);
            }
        },
        None => {},
    }
}

proof fn lemma_list_lines_count(l: Option<Seq<Seq<char>>>, show: bool, label: Seq<char>)
    requires
        label.len() >= 3,
        !is_digit_char(label[2]),
    ensures
        numbered_count(list_lines(l, show, label)) == 0,
{
    match l {
        Some(items) => {
            if show && items.len() > 0 {
                let line = label + joined(items);
                assert(line[2] == label[2]);
                assert(!is_numbered_line(line));
                lemma_numbered_count_single(line);
            }
        },
        None => {},
    }
}

proof fn lemma_def_block_count(d: DefinitionView, idx: nat, detailed: bool)
    ensures
        numbered_count(def_block(d, idx, detailed)) == 1,
{
    let first = seq![def_line(idx, d.definition)];
    let ex = example_lines(d.example, detailed || idx == 0);
    let syn = list_lines(d.synonyms, detailed, "     Synonyms: "@);
    let ant = list_lines(d.antonyms, detailed, "     Antonyms: "@);
    lemma_def_line_numbered(idx, d.definition);
    lemma_numbered_count_single(def_line(idx, d.definition));
    lemma_example_lines_count(d.example, detailed || idx == 0);
    reveal_strlit("     Synonyms: ");
    reveal_strlit("     Antonyms: ");
    lemma_list_lines_count(d.synonyms, detailed, "     Synonyms: "@);
    lemma_list_lines_count(d.antonyms, detailed, "     Antonyms: "@);
    lemma_numbered_count_add(first, ex);
    lemma_numbered_count_add(first + ex, syn);
    lemma_numbered_count_add(first + ex + syn, ant);
}

proof fn lemma_def_blocks_count(defs: Seq<DefinitionView>, n: nat, detailed: bool)
    ensures
        numbered_count(def_blocks(defs, n, detailed)) == n,
    decreases n,
{
    if n > 0 {
        lemma_def_blocks_count(defs, (n - 1) as nat, detailed);
        lemma_def_block_count(defs[n - 1], (n - 1) as nat, detailed);
        lemma_numbered_count_add(
            def_blocks(defs, (n - 1) as nat, detailed),
            def_block(defs[n - 1], (n - 1) as nat, detailed),
        );
    }
}

/// The rendering of a meaning shows exactly `shown_count` numbered
/// definition lines: every definition when detailed, and the smaller of the
/// definition count and the limit otherwise.
pub proof fn lemma_meaning_shown_definitions(m: MeaningView, detailed: bool, limit: nat)
    ensures
        numbered_count(meaning_block(m, detailed, limit)) == shown_count(
            m.definitions.len(),
            detailed,
            limit,
        ),
        detailed ==> numbered_count(meaning_block(m, detailed, limit)) == m.definitions.len(),
        !detailed && m.definitions.len() >= limit ==> numbered_count(
            meaning_block(m, detailed, limit),
        ) == limit,
        !detailed && m.definitions.len() < limit ==> numbered_count(
            meaning_block(m, detailed, limit),
        ) == m.definitions.len(),
{
    let shown = shown_count(m.definitions.len(), detailed, limit);
    let pos = seq![pos_line(m.part_of_speech)];
    let blocks = def_blocks(m.definitions, shown, detailed);
    let hint = hint_lines(m.definitions.len(), detailed, limit);
    let syn = list_lines(m.synonyms, detailed, "  Synonyms: "@);
    let ant = list_lines(m.antonyms, detailed, "  Antonyms: "@);
    let blank = seq![Seq::<char>::empty()];
    reveal_strlit("Part of speech: ");
    reveal_strlit("  Synonyms: ");
    reveal_strlit("  Antonyms: ");
    reveal_strlit("     ... (+");
    reveal_strlit(" more, use -d for all)");
    assert(pos_line(m.part_of_speech)[0] == 'P');
    assert(!is_numbered_line(pos_line(m.part_of_speech)));
    lemma_numbered_count_single(pos_line(m.part_of_speech));
    lemma_def_blocks_count(m.definitions, shown, detailed);
    if !detailed && m.definitions.len() > limit {
        let hl = "     ... (+"@ + dec_digits((m.definitions.len() - limit) as nat)
            + " more, use -d for all)"@;
        assert(hl[2] == ' ');
        assert(!is_numbered_line(hl));
        lemma_numbered_count_single(hl);
    }
    lemma_list_lines_count(m.synonyms, detailed, "  Synonyms: "@);
    lemma_list_lines_count(m.antonyms, detailed, "  Antonyms: "@);
    assert(!is_numbered_line(Seq::<char>::empty()));
    lemma_numbered_count_single(Seq::<char>::empty());
    lemma_numbered_count_add(pos, blocks);
    lemma_numbered_count_add(pos + blocks, hint);
    lemma_numbered_count_add(pos + blocks + hint, syn);
    lemma_numbered_count_add(pos + blocks + hint + syn, ant);
    lemma_numbered_count_add(pos + blocks + hint + syn + ant, blank);
}

} // verus!
