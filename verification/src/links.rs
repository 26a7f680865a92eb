//! Partial-failure-tolerant collection of element texts.
//!
//! Every located element is asked for its text. A read that fails is dropped
//! without a trace; a read that succeeds keeps the position the element had
//! in the scan.

use crate::error::ErrorKind;
use crate::text::{decimal, decimal_string};
use vstd::prelude::*;

verus! {

/// The text of one element together with its position in the scan.
#[derive(Debug, PartialEq, Eq)]
pub struct LinkResult {
    pub index: usize,
    pub text: String,
}

/// Mathematical value of a [`LinkResult`].
pub struct LinkView {
    pub index: nat,
    pub text: Seq<char>,
}

impl View for LinkResult {
    type V = LinkView;

    open spec fn view(&self) -> LinkView {
        LinkView { index: self.index as nat, text: self.text@ }
    }
}

impl DeepView for LinkResult {
    type V = LinkView;

    open spec fn deep_view(&self) -> LinkView {
        self@
    }
}

/// What one text read yielded: the text, or nothing when the read failed.
pub open spec fn read_text<E>(read: Result<String, E>) -> Option<Seq<char>> {
    match read {
        Ok(text) => Some(text@),
        Err(_) => None,
    }
}

/// The reads of a whole scan, in enumeration order.
pub open spec fn read_texts<E>(reads: Seq<Result<String, E>>) -> Seq<Option<Seq<char>>> {
    Seq::new(reads.len(), |i: int| read_text(reads[i]))
}

/// The links that survive a scan: one for each read that yielded a text,
/// under the position of that read, in enumeration order.
pub open spec fn surviving(reads: Seq<Option<Seq<char>>>) -> Seq<LinkView>
    decreases reads.len(),
{
    if reads.len() == 0 {
        Seq::empty()
    } else {
        let earlier = surviving(reads.drop_last());
        match reads.last() {
            Some(text) => earlier.push(LinkView { index: (reads.len() - 1) as nat, text }),
            None => earlier,
        }
    }
}

/// The number of reads that failed.
pub open spec fn failed_reads(reads: Seq<Option<Seq<char>>>) -> nat
    decreases reads.len(),
{
    if reads.len() == 0 {
        0
    } else {
        failed_reads(reads.drop_last()) + if reads.last() is None {
            1nat
        } else {
            0nat
        }
    }
}

/// The line printed for one link: the position, a colon, a space, the text.
pub open spec fn link_line(link: LinkView) -> Seq<char> {
    decimal(link.index) + seq![':', ' '] + link.text
}

/// The lines printed for a scan, one per surviving link.
pub open spec fn link_lines(reads: Seq<Option<Seq<char>>>) -> Seq<Seq<char>> {
    Seq::new(surviving(reads).len(), |i: int| link_line(surviving(reads)[i]))
}

/// Of `M` reads of which `F` failed, exactly `M - F` links survive. Each
/// stands for a read that yielded its text, under that read's position; the
/// positions strictly increase; and no read that yielded a text is missing.
pub proof fn lemma_partial_collection(reads: Seq<Option<Seq<char>>>)
    ensures
        failed_reads(reads) <= reads.len(),
        surviving(reads).len() == reads.len() - failed_reads(reads),
        forall|i: int|
            0 <= i < surviving(reads).len() ==> {
                &&& (#[trigger] surviving(reads)[i]).index < reads.len()
                &&& reads[surviving(reads)[i].index as int] == Some(surviving(reads)[i].text)
            },
        forall|i: int, j: int|
            0 <= i < j < surviving(reads).len() ==> (#[trigger] surviving(reads)[i]).index < (
            #[trigger] surviving(reads)[j]).index,
        forall|k: int|
            0 <= k < reads.len() && (#[trigger] reads[k]) is Some ==> exists|i: int|
                0 <= i < surviving(reads).len() && (#[trigger] surviving(reads)[i]).index == k,
    decreases reads.len(),
{
    if reads.len() > 0 {
        let head = reads.drop_last();
        lemma_partial_collection(head);
        let kept = surviving(reads);
        let earlier = surviving(head);
        assert forall|i: int| 0 <= i < kept.len() implies {
            &&& (#[trigger] kept[i]).index < reads.len()
            &&& reads[kept[i].index as int] == Some(kept[i].text)
        } by {
            if i < earlier.len() {
                assert(kept[i] == earlier[i]);
                assert(head[earlier[i].index as int] == reads[earlier[i].index as int]);
            }
        }
        assert forall|i: int, j: int| 0 <= i < j < kept.len() implies (#[trigger] kept[i]).index < (
        #[trigger] kept[j]).index by {
            assert(kept[i] == earlier[i]);
            if j < earlier.len() {
                assert(kept[j] == earlier[j]);
            }
        }
        assert forall|k: int| 0 <= k < reads.len() && (#[trigger] reads[k]) is Some implies exists|
            i: int,
        | 0 <= i < kept.len() && (#[trigger] kept[i]).index == k by {
            if k < head.len() {
                assert(head[k] == reads[k]);
                let i = choose|i: int| 0 <= i < earlier.len() && (#[trigger] earlier[i]).index == k;
                assert(kept[i] == earlier[i]);
            } else {
                assert(kept[kept.len() - 1].index == k);
            }
        }
    }
}

/// A scan in which no read failed keeps every element.
pub proof fn lemma_all_reads_succeed(reads: Seq<Option<Seq<char>>>)
    requires
        forall|k: int| 0 <= k < reads.len() ==> (#[trigger] reads[k]) is Some,
    ensures
        surviving(reads).len() == reads.len(),
        forall|k: int|
            0 <= k < reads.len() ==> #[trigger] surviving(reads)[k] == (LinkView {
                index: k as nat,
                text: reads[k]->Some_0,
            }),
    decreases reads.len(),
{
    if reads.len() > 0 {
        let head = reads.drop_last();
        assert forall|k: int| 0 <= k < head.len() implies (#[trigger] head[k]) is Some by {
            assert(head[k] == reads[k]);
        }
        lemma_all_reads_succeed(head);
        assert forall|k: int| 0 <= k < reads.len() implies #[trigger] surviving(reads)[k] == (
        LinkView { index: k as nat, text: reads[k]->Some_0 }) by {
            if k < head.len() {
                assert(surviving(reads)[k] == surviving(head)[k]);
                assert(head[k] == reads[k]);
            }
        }
    }
}

impl LinkResult {
    /// The line that reports this link: `"{index}: {text}"`.
    pub fn to_string(&self) -> (line: String)
        ensures
            line@ == link_line(self@),
    {
        let mut line = decimal_string(self.index as u64);
        proof {
            reveal_strlit(": ");
        }
        line.append(": ");
        line.append(self.text.as_str());
        assert(line@ =~= link_line(self@));
        line
    }
}

/// The text that one read yielded, or `ElementReadError` where the read
/// failed, whatever made it fail.
pub fn element_text<E>(read: &Result<String, E>) -> (text: Result<String, ErrorKind>)
    ensures
        match *read {
            Ok(yielded) => text == Ok::<String, ErrorKind>(yielded),
            Err(_) => text == Err::<String, ErrorKind>(ErrorKind::ElementReadError),
        },
{
    match read {
        Ok(yielded) => Ok(yielded.clone()),
        Err(_) => Err(ErrorKind::ElementReadError),
    }
}

/// Keeps the reads that yielded a text, each under the position it had in
/// the scan, and drops the failed ones.
pub fn collect_links<E>(reads: &Vec<Result<String, E>>) -> (links: Vec<LinkResult>)
    ensures
        links.deep_view() == surviving(read_texts(reads@)),
        links.len() == reads.len() - failed_reads(read_texts(reads@)),
{
    let ghost texts = read_texts(reads@);
    let mut links: Vec<LinkResult> = Vec::new();
    let mut i: usize = 0;
    assert(texts.take(0) =~= Seq::empty());
    while i < reads.len()
        invariant
            i <= reads.len(),
            texts == read_texts(reads@),
            links.deep_view() == surviving(texts.take(i as int)),
        decreases reads.len() - i,
    {
        let ghost before = links.deep_view();
        assert(texts.take(i + 1).drop_last() =~= texts.take(i as int));
        assert(texts.take(i + 1).last() == texts[i as int]);
        match element_text(&reads[i]) {
            Ok(text) => {
                links.push(LinkResult { index: i, text });
                assert(links.deep_view() =~= before.push(
                    LinkView { index: i as nat, text: texts[i as int]->Some_0 },
                ));
            },
            Err(_) => {},
        }
        i += 1;
    }
    assert(texts.take(i as int) =~= texts);
    proof {
        lemma_partial_collection(texts);
    }
    links
}

/// Renders one line per link, in the order of the links.
pub fn render_links(links: &Vec<LinkResult>) -> (lines: Vec<String>)
    ensures
        lines.len() == links.len(),
        forall|i: int| 0 <= i < lines.len() ==> (#[trigger] lines[i])@ == link_line(links[i]@),
{
    let mut lines: Vec<String> = Vec::new();
    let mut i: usize = 0;
    while i < links.len()
        invariant
            i <= links.len(),
            lines.len() == i,
            forall|k: int| 0 <= k < i ==> (#[trigger] lines[k])@ == link_line(links[k]@),
        decreases links.len() - i,
    {
        lines.push(links[i].to_string());
        i += 1;
    }
    lines
}

/// The lines a scrape task prints for a scan: one for each read that yielded
/// a text, `"{index}: {text}"`, in enumeration order. Failed reads leave no
/// line.
pub fn report_lines<E>(reads: &Vec<Result<String, E>>) -> (lines: Vec<String>)
    ensures
        lines.deep_view() == link_lines(read_texts(reads@)),
        lines.len() == reads.len() - failed_reads(read_texts(reads@)),
{
    let links = collect_links(reads);
    let lines = render_links(&links);
    assert(lines.deep_view() =~= link_lines(read_texts(reads@))) by {
        assert forall|i: int| 0 <= i < lines.len() implies lines.deep_view()[i] == link_line(
            surviving(read_texts(reads@))[i],
        ) by {
            assert(links.deep_view()[i] == links[i]@);
        }
    }
    lines
}

} // verus!
