use vstd::prelude::*;

verus! {

/// Short labels of the well-known comparisons, as (comparison, label).
pub open spec fn label_pairs() -> Seq<(Seq<char>, Seq<char>)> {
    seq![
        ("Personal Best"@, "PB"@),
        ("Balanced PB"@, "Balanced"@),
        ("Best Segments"@, "SOB"@),
        ("Best Split Times"@, "Best Split"@),
        ("Average Segments"@, "Avg"@),
        ("Median Segments"@, "Median"@),
        ("Worst Segments"@, "Worst Split"@),
        ("Latest Run"@, "Latest"@),
    ]
}

/// The label of the first pair whose comparison is `s`, or `s` itself.
pub open spec fn find_label(pairs: Seq<(Seq<char>, Seq<char>)>, s: Seq<char>) -> Seq<char>
    decreases pairs.len(),
{
    if pairs.len() == 0 {
        s
    } else if pairs[0].0 == s {
        pairs[0].1
    } else {
        find_label(pairs.drop_first(), s)
    }
}

pub open spec fn pair_views(t: Seq<(&str, &str)>) -> Seq<(Seq<char>, Seq<char>)> {
    t.map_values(|p: (&str, &str)| (p.0@, p.1@))
}

/// The table of short labels of the well-known comparisons.
pub fn get_formatter() -> (r: Vec<(&'static str, &'static str)>)
    ensures
        pair_views(r@) == label_pairs(),
{
    let r = vec![
        ("Personal Best", "PB"),
        ("Balanced PB", "Balanced"),
        ("Best Segments", "SOB"),
        ("Best Split Times", "Best Split"),
        ("Average Segments", "Avg"),
        ("Median Segments", "Median"),
        ("Worst Segments", "Worst Split"),
        ("Latest Run", "Latest"),
    ];
    assert(pair_views(r@) =~= label_pairs());
    r
}

fn same_text(a: &str, b: &str) -> (r: bool)
    ensures
        r == (a@ == b@),
{
    a.to_owned() == b.to_owned()
}

/// The short label of a comparison name; a name without one is its own label.
pub fn format_label(input: &str) -> (r: &str)
    ensures
        r@ == find_label(label_pairs(), input@),
{
    let table = get_formatter();
    let ghost pairs = pair_views(table@);
    let mut i: usize = 0;
    assert(pairs.subrange(0, pairs.len() as int) =~= pairs);
    while i < table.len()
        invariant
            i <= table.len(),
            pairs == pair_views(table@),
            pairs == label_pairs(),
            find_label(pairs, input@) == find_label(
                pairs.subrange(i as int, pairs.len() as int),
                input@,
            ),
        decreases table.len() - i,
    {
        let ghost rest = pairs.subrange(i as int, pairs.len() as int);
        assert(rest.drop_first() =~= pairs.subrange(i + 1, pairs.len() as int));
        assert(rest[0] == pairs[i as int]);
        let (name, label) = table[i];
        if same_text(name, input) {
            return label;
        }
        i = i + 1;
    }
    assert(pairs.subrange(i as int, pairs.len() as int).len() == 0);
    input
}

} // verus!
