use vstd::prelude::*;

verus! {

/// Wildcard matching of a whole string: `*` stands for any run of characters
/// other than a line feed, every other pattern character stands for itself.
pub open spec fn wild(p: Seq<char>, s: Seq<char>) -> bool
    decreases p.len() + s.len(),
{
    if p.len() == 0 {
        s.len() == 0
    } else if p.last() == '*' {
        wild(p.drop_last(), s) || (s.len() > 0 && s.last() != '\n' && wild(p, s.drop_last()))
    } else {
        s.len() > 0 && s.last() == p.last() && wild(p.drop_last(), s.drop_last())
    }
}

proof fn lemma_take_step<A>(s: Seq<A>, i: int)
    requires
        1 <= i <= s.len(),
    ensures
        s.take(i).drop_last() == s.take(i - 1),
        s.take(i).last() == s[i - 1],
        s.take(i).len() == i,
{
}

/// Whether pattern `p` matches all of `s` under `wild`.
pub fn wildcard_match(p: &[char], s: &[char]) -> (r: bool)
    ensures
        r == wild(p@, s@),
{
    let m = p.len();
    let mut prev: Vec<bool> = Vec::new();
    prev.push(true);
    proof {
        assert(p@.take(0).len() == 0);
        assert(s@.take(0).len() == 0);
    }
    let mut j: usize = 0;
    while j < m
        invariant
            j <= m,
            m == p.len(),
            prev@.len() == j + 1,
            forall|k: int| 0 <= k <= j ==> prev@[k] == wild(p@.take(k), s@.take(0)),
        decreases m - j,
    {
        proof {
            lemma_take_step(p@, j + 1);
            assert(s@.take(0).len() == 0);
        }
        let v = p[j] == '*' && prev[j];
        prev.push(v);
        j = j + 1;
    }
    let mut i: usize = 0;
    while i < s.len()
        invariant
            i <= s.len(),
            m == p.len(),
            prev@.len() == m + 1,
            forall|k: int| 0 <= k <= m ==> prev@[k] == wild(p@.take(k), s@.take(i as int)),
        decreases s.len() - i,
    {
        let c = s[i];
        proof {
            lemma_take_step(s@, i + 1);
            assert(p@.take(0).len() == 0);
        }
        let mut cur: Vec<bool> = Vec::new();
        cur.push(false);
        let mut j: usize = 0;
        while j < m
            invariant
                j <= m,
                i < s.len(),
                m == p.len(),
                c == s@[i as int],
                prev@.len() == m + 1,
                cur@.len() == j + 1,
                forall|k: int| 0 <= k <= m ==> prev@[k] == wild(p@.take(k), s@.take(i as int)),
                forall|k: int| 0 <= k <= j ==> cur@[k] == wild(p@.take(k), s@.take(i + 1)),
            decreases m - j,
        {
            proof {
                lemma_take_step(p@, j + 1);
                lemma_take_step(s@, i + 1);
            }
            let v = if p[j] == '*' {
                cur[j] || (c != '\n' && prev[j + 1])
            } else {
                c == p[j] && prev[j]
            };
            cur.push(v);
            j = j + 1;
        }
        prev = cur;
        i = i + 1;
    }
    proof {
        assert(p@.take(m as int) == p@);
        assert(s@.take(s.len() as int) == s@);
    }
    prev[m]
}

} // verus!
