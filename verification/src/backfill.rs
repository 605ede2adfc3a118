//! Backfill of blocks from the archive: naming what a listing holds,
//! finding the file of a block, and numbering the blocks of a file.

use crate::block_range::{range_of_key, BlockRange, BlockRangeView, BLOCKS_PREFIX};
use crate::json::{json_document, parse_json};
use crate::text::{ascending, chars_of, sort_texts, spells, texts};
use vstd::prelude::*;
use vstd::string::{StrSliceExecFns, StringExecFns};

verus! {

/// A text without the prefix that it starts with, however often the prefix
/// is repeated there. An empty prefix takes nothing away.
pub open spec fn without_prefixes(s: Seq<char>, prefix: Seq<char>) -> Seq<char>
    decreases s.len(),
{
    if prefix.len() > 0 && prefix.is_prefix_of(s) {
        without_prefixes(s.skip(prefix.len() as int), prefix)
    } else {
        s
    }
}

/// A text without the character `c` at its end, however often it is
/// repeated there.
pub open spec fn without_trailing(s: Seq<char>, c: char) -> Seq<char>
    decreases s.len(),
{
    if s.len() > 0 && s.last() == c {
        without_trailing(s.drop_last(), c)
    } else {
        s
    }
}

/// The name under which an entry of a listing is shown: the entry without
/// the prefix of the listing, a directory also without the slashes at its
/// end. An entry of which nothing is left has no name.
pub open spec fn name_of(entry: Seq<char>, prefix: Seq<char>, directory: bool) -> Option<
    Seq<char>,
> {
    let rest = without_prefixes(entry, prefix);
    let name = if directory {
        without_trailing(rest, '/')
    } else {
        rest
    };
    if name.len() > 0 {
        Some(name)
    } else {
        None
    }
}

/// The names of the entries of a listing that have one, in the order of the
/// entries.
pub open spec fn names_of(entries: Seq<Seq<char>>, prefix: Seq<char>, directory: bool) -> Seq<
    Seq<char>,
>
    decreases entries.len(),
{
    if entries.len() == 0 {
        Seq::empty()
    } else {
        let earlier = names_of(entries.drop_last(), prefix, directory);
        match name_of(entries.last(), prefix, directory) {
            Some(name) => earlier.push(name),
            None => earlier,
        }
    }
}

/// The name under which an entry of a listing is shown, if it has one.
pub fn entry_name(entry: &str, prefix: &str, directory: bool) -> (r: Option<String>)
    ensures
        match r {
            Some(name) => name_of(entry@, prefix@, directory) == Some(name@),
            None => name_of(entry@, prefix@, directory) is None,
        },
{
    let chars = chars_of(entry);
    let lead = chars_of(prefix);
    let mut start: usize = 0;
    assert(chars@.skip(0) =~= chars@);
    if lead.len() > 0 {
        while lead.len() <= chars.len() - start && spells(&chars, start, start + lead.len(), &lead)
            invariant
                start <= chars@.len(),
                lead@.len() > 0,
                without_prefixes(chars@, lead@) == without_prefixes(
                    chars@.skip(start as int),
                    lead@,
                ),
            decreases chars@.len() - start,
        {
            assert(chars@.skip(start as int).subrange(0, lead@.len() as int) =~= chars@.subrange(
                start as int,
                start + lead@.len(),
            ));
            assert(chars@.skip(start as int).skip(lead@.len() as int) =~= chars@.skip(
                start + lead@.len(),
            ));
            start = start + lead.len();
        }
        proof {
            if lead@.len() <= chars@.len() - start {
                assert(chars@.skip(start as int).subrange(0, lead@.len() as int)
                    =~= chars@.subrange(start as int, start + lead@.len()));
            }
        }
    }
    let ghost rest = chars@.skip(start as int);
    assert(rest == without_prefixes(chars@, lead@));
    let mut end: usize = chars.len();
    assert(chars@.subrange(start as int, end as int) =~= rest);
    if directory {
        while end > start && chars[end - 1] == '/'
            invariant
                start <= end <= chars@.len(),
                without_trailing(rest, '/') == without_trailing(
                    chars@.subrange(start as int, end as int),
                    '/',
                ),
            decreases end,
        {
            assert(chars@.subrange(start as int, end as int).drop_last() =~= chars@.subrange(
                start as int,
                end - 1,
            ));
            end = end - 1;
        }
    }
    if start == end {
        None
    } else {
        Some(entry.substring_char(start, end).to_owned())
    }
}

/// Adds the names of the entries that have one to the list.
fn push_names(names: &mut Vec<String>, entries: &Vec<String>, prefix: &str, directory: bool)
    ensures
        texts(final(names)@) == texts(old(names)@) + names_of(
            texts(entries@),
            prefix@,
            directory,
        ),
{
    let ghost before = texts(names@);
    let mut i: usize = 0;
    assert(texts(entries@).take(0) =~= Seq::<Seq<char>>::empty());
    assert(texts(names@) =~= before + names_of(texts(entries@).take(0), prefix@, directory));
    while i < entries.len()
        invariant
            i <= entries@.len(),
            texts(names@) == before + names_of(texts(entries@).take(i as int), prefix@, directory),
        decreases entries@.len() - i,
    {
        let ghost seen = texts(entries@).take(i as int);
        let ghost more = texts(entries@).take(i + 1);
        let ghost held = names@;
        proof {
            assert(more.drop_last() =~= seen);
            assert(more.last() == entries@[i as int]@);
        }
        match entry_name(entries[i].as_str(), prefix, directory) {
            Some(name) => {
                names.push(name);
                assert(texts(names@) =~= texts(held).push(name@));
                assert(texts(names@) =~= before + names_of(more, prefix@, directory));
            },
            None => {},
        }
        i = i + 1;
    }
    assert(texts(entries@).take(entries@.len() as int) =~= texts(entries@));
}

/// The names that a listing shows: those of its directories and of its
/// files, all in one ascending order.
pub fn listing_names(prefix: &str, directories: &Vec<String>, files: &Vec<String>) -> (r: Vec<
    String,
>)
    ensures
        ascending(texts(r@)),
        texts(r@).to_multiset() == (names_of(texts(directories@), prefix@, true) + names_of(
            texts(files@),
            prefix@,
            false,
        )).to_multiset(),
{
    let mut names: Vec<String> = Vec::new();
    assert(texts(names@) =~= Seq::<Seq<char>>::empty());
    push_names(&mut names, directories, prefix, true);
    push_names(&mut names, files, prefix, false);
    assert(texts(names@) =~= names_of(texts(directories@), prefix@, true) + names_of(
        texts(files@),
        prefix@,
        false,
    ));
    sort_texts(names)
}

/// The directory of all files of blocks.
pub open spec fn blocks_directory() -> Seq<char> {
    BLOCKS_PREFIX@ + seq!['/']
}

/// The directory of one checkpoint.
pub open spec fn checkpoint_directory(checkpoint: Seq<char>) -> Seq<char> {
    blocks_directory() + checkpoint + seq!['/']
}

/// The directory of one date of a checkpoint.
pub open spec fn date_directory(checkpoint: Seq<char>, date: Seq<char>) -> Seq<char> {
    checkpoint_directory(checkpoint) + date + seq!['/']
}

/// A directory with one more piece.
fn subdirectory(directory: &str, piece: &str) -> (r: String)
    ensures
        r@ == directory@ + piece@ + seq!['/'],
{
    let mut path = directory.to_owned();
    path.append(piece);
    proof {
        reveal_strlit("/");
        assert("/"@ =~= seq!['/']);
    }
    path.append("/");
    path
}

/// The prefix under which the checkpoints are listed.
pub fn blocks_prefix() -> (r: String)
    ensures
        r@ == blocks_directory(),
{
    let r = subdirectory("", BLOCKS_PREFIX);
    proof {
        reveal_strlit("");
        assert(""@ =~= Seq::<char>::empty());
        assert(r@ =~= blocks_directory());
    }
    r
}

/// The prefix under which the dates of a checkpoint are listed.
pub fn checkpoint_prefix(checkpoint: &str) -> (r: String)
    ensures
        r@ == checkpoint_directory(checkpoint@),
{
    let root = blocks_prefix();
    subdirectory(root.as_str(), checkpoint)
}

/// The prefix under which the files of a date are listed.
pub fn date_prefix(checkpoint: &str, date: &str) -> (r: String)
    ensures
        r@ == date_directory(checkpoint@, date@),
{
    let parent = checkpoint_prefix(checkpoint);
    subdirectory(parent.as_str(), date)
}

/// The file holds the block: its key describes a range, and the block lies
/// in it.
pub open spec fn holds_block(key: Seq<char>, target: u64) -> bool {
    range_of_key(key) matches Some(range) && range.start_block <= target <= range.end_block
}

/// The first file of a directory, in the order of the listing, that holds
/// the block.
pub open spec fn first_holding(directory: Seq<char>, files: Seq<Seq<char>>, target: u64) -> Option<
    BlockRangeView,
>
    decreases files.len(),
{
    if files.len() == 0 {
        None
    } else if holds_block(directory + files[0], target) {
        range_of_key(directory + files[0])
    } else {
        first_holding(directory, files.skip(1), target)
    }
}

/// The file that a search through a directory comes up with holds the
/// block, and its key is that of a file of the listing.
pub proof fn lemma_first_holding_holds(directory: Seq<char>, files: Seq<Seq<char>>, target: u64)
    ensures
        first_holding(directory, files, target) matches Some(range) ==> range.start_block
            <= target <= range.end_block && exists|i: int|
            0 <= i < files.len() && range.s3_key == directory + #[trigger] files[i],
        first_holding(directory, files, target) is None ==> forall|i: int|
            0 <= i < files.len() ==> !holds_block(directory + #[trigger] files[i], target),
    decreases files.len(),
{
    if files.len() > 0 {
        if holds_block(directory + files[0], target) {
            assert(range_of_key(directory + files[0])->0.s3_key == directory + files[0]);
        } else {
            lemma_first_holding_holds(directory, files.skip(1), target);
            if first_holding(directory, files, target) is Some {
                let range = first_holding(directory, files, target)->0;
                let i = choose|i: int|
                    0 <= i < files.skip(1).len() && range.s3_key == directory
                        + #[trigger] files.skip(1)[i];
                assert(files[i + 1] == files.skip(1)[i]);
            } else {
                assert forall|i: int| 0 <= i < files.len() implies !holds_block(
                    directory + #[trigger] files[i],
                    target,
                ) by {
                    if i > 0 {
                        assert(files[i] == files.skip(1)[i - 1]);
                    }
                }
            }
        }
    }
}

/// Looks through the files of one date for the block: the first file whose
/// key describes a range with the block in it.
pub fn find_in_files(checkpoint: &str, date: &str, files: &Vec<String>, target: u64) -> (r: Option<
    BlockRange,
>)
    ensures
        match r {
            Some(range) => first_holding(
                date_directory(checkpoint@, date@),
                texts(files@),
                target,
            ) == Some(range@),
            None => first_holding(date_directory(checkpoint@, date@), texts(files@), target)
                is None,
        },
{
    let directory = date_prefix(checkpoint, date);
    let mut i: usize = 0;
    assert(texts(files@).skip(0) =~= texts(files@));
    while i < files.len()
        invariant
            i <= files@.len(),
            directory@ == date_directory(checkpoint@, date@),
            first_holding(directory@, texts(files@), target) == first_holding(
                directory@,
                texts(files@).skip(i as int),
                target,
            ),
        decreases files@.len() - i,
    {
        let ghost rest = texts(files@).skip(i as int);
        proof {
            assert(rest[0] == files@[i as int]@);
            assert(rest.skip(1) =~= texts(files@).skip(i + 1));
        }
        let mut key = directory.clone();
        key.append(files[i].as_str());
        match BlockRange::from_s3_key(key.as_str()) {
            Some(range) => {
                if range.contains(target) {
                    return Some(range);
                }
            },
            None => {},
        }
        i = i + 1;
    }
    None
}

/// Where a search for the file of a block stands.
pub enum SearchStage {
    /// The checkpoints are being listed.
    Checkpoints,
    /// The dates of the latest checkpoint are being listed.
    Dates { checkpoint: Seq<char> },
    /// The files of date number `next` are being listed.
    Files { checkpoint: Seq<char>, dates: Seq<Seq<char>>, next: nat },
    /// The search is over.
    Done,
}

/// What the driver of a search does next.
#[derive(Debug, PartialEq, Eq)]
pub enum SearchStep {
    /// List the names under this prefix and hand them to the search.
    List(String),
    /// The block is in this file.
    Found(BlockRange),
    /// No file holds the block, or a listing failed.
    NotFound,
}

/// The mathematical content of a [`SearchStep`], variant by variant.
pub enum SearchStepView {
    /// List the names under this prefix.
    List(Seq<char>),
    /// The block is in this file.
    Found(BlockRangeView),
    /// No file holds the block, or a listing failed.
    NotFound,
}

impl View for SearchStep {
    type V = SearchStepView;

    open spec fn view(&self) -> SearchStepView {
        match self {
            SearchStep::List(prefix) => SearchStepView::List(prefix@),
            SearchStep::Found(range) => SearchStepView::Found(range@),
            SearchStep::NotFound => SearchStepView::NotFound,
        }
    }
}

/// The mathematical content of a [`BlockSearch`].
pub struct SearchView {
    /// The number of the block that is looked for.
    pub target: u64,
    /// How far the search has come.
    pub stage: SearchStage,
}

impl SearchView {
    /// The search at its end.
    pub open spec fn done(self) -> SearchView {
        SearchView { stage: SearchStage::Done, ..self }
    }

    /// While files are listed, their date is one of the dates.
    pub open spec fn wf(self) -> bool {
        self.stage matches SearchStage::Files { dates, next, .. } ==> next < dates.len()
    }

    /// The search after a listing, and what its driver does next. A failed
    /// listing ends the search. Of the checkpoints only the last, which is
    /// the latest, is searched; its dates are gone through in order, and
    /// the first file that holds the block ends the search.
    pub open spec fn advance(self, listing: Option<Seq<Seq<char>>>) -> (SearchView, SearchStepView) {
        match (self.stage, listing) {
            (SearchStage::Done, _) => (self, SearchStepView::NotFound),
            (_, None) => (self.done(), SearchStepView::NotFound),
            (SearchStage::Checkpoints, Some(names)) => if names.len() == 0 {
                (self.done(), SearchStepView::NotFound)
            } else {
                (
                    SearchView { stage: SearchStage::Dates { checkpoint: names.last() }, ..self },
                    SearchStepView::List(checkpoint_directory(names.last())),
                )
            },
            (SearchStage::Dates { checkpoint }, Some(names)) => if names.len() == 0 {
                (self.done(), SearchStepView::NotFound)
            } else {
                (
                    SearchView {
                        stage: SearchStage::Files { checkpoint, dates: names, next: 0 },
                        ..self
                    },
                    SearchStepView::List(date_directory(checkpoint, names[0])),
                )
            },
            (SearchStage::Files { checkpoint, dates, next }, Some(names)) => match first_holding(
                date_directory(checkpoint, dates[next as int]),
                names,
                self.target,
            ) {
                Some(range) => (self.done(), SearchStepView::Found(range)),
                None => if next + 1 < dates.len() {
                    (
                        SearchView {
                            stage: SearchStage::Files { checkpoint, dates, next: next + 1 },
                            ..self
                        },
                        SearchStepView::List(date_directory(checkpoint, dates[next as int + 1])),
                    )
                } else {
                    (self.done(), SearchStepView::NotFound)
                },
            },
        }
    }
}

enum Stage {
    Checkpoints,
    Dates { checkpoint: String },
    Files { checkpoint: String, dates: Vec<String>, next: usize },
    Done,
}

/// A search for the file that holds a block. The driver lists what the
/// search asks for and hands each listing back.
pub struct BlockSearch {
    target: u64,
    stage: Stage,
}

impl View for BlockSearch {
    type V = SearchView;

    closed spec fn view(&self) -> SearchView {
        SearchView {
            target: self.target,
            stage: match self.stage {
                Stage::Checkpoints => SearchStage::Checkpoints,
                Stage::Dates { checkpoint } => SearchStage::Dates { checkpoint: checkpoint@ },
                Stage::Files { checkpoint, dates, next } => SearchStage::Files {
                    checkpoint: checkpoint@,
                    dates: texts(dates@),
                    next: next as nat,
                },
                Stage::Done => SearchStage::Done,
            },
        }
    }
}

impl BlockSearch {
    /// Holds of every search that exists.
    #[verifier::type_invariant]
    pub open spec fn inv(self) -> bool {
        self@.wf()
    }

    /// A search for the block with this number, together with the prefix
    /// of the first listing that it needs: that of the checkpoints.
    pub fn start(target: u64) -> (r: (BlockSearch, String))
        ensures
            r.0@ == (SearchView { target, stage: SearchStage::Checkpoints }),
            r.1@ == blocks_directory(),
    {
        (BlockSearch { target, stage: Stage::Checkpoints }, blocks_prefix())
    }

    /// The number of the block that is looked for.
    pub fn target(&self) -> (r: u64)
        ensures
            r == self@.target,
    {
        self.target
    }

    /// Takes the listing that the search asked for, with its names in
    /// ascending order, or nothing where listing failed, and says what to
    /// do next.
    pub fn on_listing(self, listing: Option<Vec<String>>) -> (r: (BlockSearch, SearchStep))
        ensures
            (r.0@, r.1@) == self@.advance(
                match listing {
                    Some(names) => Some(texts(names@)),
                    None => None,
                },
            ),
    {
        proof {
            use_type_invariant(&self);
        }
        let target = self.target;
        let names = match listing {
            Some(names) => names,
            None => {
                return match self.stage {
                    Stage::Done => (self, SearchStep::NotFound),
                    _ => (BlockSearch { target, stage: Stage::Done }, SearchStep::NotFound),
                };
            },
        };
        match self.stage {
            Stage::Done => (BlockSearch { target, stage: Stage::Done }, SearchStep::NotFound),
            Stage::Checkpoints => {
                if names.len() == 0 {
                    return (BlockSearch { target, stage: Stage::Done }, SearchStep::NotFound);
                }
                let checkpoint = names[names.len() - 1].clone();
                let prefix = checkpoint_prefix(checkpoint.as_str());
                (BlockSearch { target, stage: Stage::Dates { checkpoint } }, SearchStep::List(prefix))
            },
            Stage::Dates { checkpoint } => {
                if names.len() == 0 {
                    return (BlockSearch { target, stage: Stage::Done }, SearchStep::NotFound);
                }
                let prefix = date_prefix(checkpoint.as_str(), names[0].as_str());
                (
                    BlockSearch { target, stage: Stage::Files { checkpoint, dates: names, next: 0 } },
                    SearchStep::List(prefix),
                )
            },
            Stage::Files { checkpoint, dates, next } => {
                match find_in_files(checkpoint.as_str(), dates[next].as_str(), &names, target) {
                    Some(range) => (
                        BlockSearch { target, stage: Stage::Done },
                        SearchStep::Found(range),
                    ),
                    None => {
                        let count = dates.len();
                        if next + 1 < count {
                            let prefix = date_prefix(checkpoint.as_str(), dates[next + 1].as_str());
                            (
                                BlockSearch {
                                    target,
                                    stage: Stage::Files { checkpoint, dates, next: next + 1 },
                                },
                                SearchStep::List(prefix),
                            )
                        } else {
                            (BlockSearch { target, stage: Stage::Done }, SearchStep::NotFound)
                        }
                    },
                }
            },
        }
    }
}

/// One block of a file, with the number that its line gives it.
#[derive(Debug, PartialEq)]
pub struct Block {
    /// The number of the block.
    pub block_number: u64,
    /// The commands of the block, as a document.
    pub data: serde_json::Value,
}

/// A character that counts as white space.
pub open spec fn is_space(c: char) -> bool {
    ||| '\u{9}' <= c <= '\u{D}'
    ||| c == ' '
    ||| c == '\u{85}'
    ||| c == '\u{A0}'
    ||| c == '\u{1680}'
    ||| '\u{2000}' <= c <= '\u{200A}'
    ||| c == '\u{2028}'
    ||| c == '\u{2029}'
    ||| c == '\u{202F}'
    ||| c == '\u{205F}'
    ||| c == '\u{3000}'
}

/// A line that holds nothing but white space.
pub open spec fn is_blank(line: Seq<char>) -> bool {
    forall|i: int| 0 <= i < line.len() ==> is_space(#[trigger] line[i])
}

/// Whether a character counts as white space.
pub fn space(c: char) -> (r: bool)
    ensures
        r == is_space(c),
{
    ('\u{9}' <= c && c <= '\u{D}') || c == ' ' || c == '\u{85}' || c == '\u{A0}' || c
        == '\u{1680}' || ('\u{2000}' <= c && c <= '\u{200A}') || c == '\u{2028}' || c
        == '\u{2029}' || c == '\u{202F}' || c == '\u{205F}' || c == '\u{3000}'
}

/// Whether a line holds nothing but white space.
pub fn blank(line: &str) -> (r: bool)
    ensures
        r == is_blank(line@),
{
    let chars = chars_of(line);
    let mut i: usize = 0;
    while i < chars.len()
        invariant
            i <= chars@.len(),
            chars@ == line@,
            forall|j: int| 0 <= j < i ==> is_space(#[trigger] chars@[j]),
        decreases chars@.len() - i,
    {
        if !space(chars[i]) {
            assert(!is_space(line@[i as int]));
            return false;
        }
        i = i + 1;
    }
    true
}

/// The block that line number `index` of a file stands for: its number is
/// that of the first block of the file plus the number of the line, and its
/// data is the document of the line. A line that could not be read, a
/// blank line and a line that is no document stand for no block, but they
/// count as lines.
pub open spec fn block_of_line(start_block: u64, index: int, line: Option<Seq<char>>) -> Option<
    (int, serde_json::Value),
> {
    match line {
        Some(text) => if is_blank(text) {
            None
        } else {
            match json_document(text) {
                Some(data) => Some((start_block + index, data)),
                None => None,
            }
        },
        None => None,
    }
}

/// The blocks that the lines of a file stand for, in the order of the
/// lines.
pub open spec fn blocks_of_lines(start_block: u64, lines: Seq<Option<Seq<char>>>) -> Seq<
    (int, serde_json::Value),
>
    decreases lines.len(),
{
    if lines.len() == 0 {
        Seq::empty()
    } else {
        let earlier = blocks_of_lines(start_block, lines.drop_last());
        match block_of_line(start_block, lines.len() - 1, lines.last()) {
            Some(block) => earlier.push(block),
            None => earlier,
        }
    }
}

/// The characters of each line that was read.
pub open spec fn line_texts(lines: Seq<Option<String>>) -> Seq<Option<Seq<char>>> {
    Seq::new(
        lines.len(),
        |i: int|
            match lines[i] {
                Some(text) => Some(text@),
                None => None,
            },
    )
}

/// The number and the data of each block.
pub open spec fn block_views(blocks: Seq<Block>) -> Seq<(int, serde_json::Value)> {
    Seq::new(blocks.len(), |i: int| (blocks[i].block_number as int, blocks[i].data))
}

/// The block of a line that is not blank, given the outcome of parsing it.
pub fn block_from(block_number: u64, parsed: Result<serde_json::Value, serde_json::Error>) -> (r:
    Option<Block>)
    ensures
        r == match parsed {
            Ok(data) => Some(Block { block_number, data }),
            Err(_) => None,
        },
{
    match parsed {
        Ok(data) => Some(Block { block_number, data }),
        Err(_) => None,
    }
}

/// Numbers the blocks of a file from its lines. A line that could not be
/// read is given as nothing. The number of every line must fit in a `u64`.
pub fn number_blocks(start_block: u64, lines: &Vec<Option<String>>) -> (r: Vec<Block>)
    requires
        start_block + lines@.len() <= u64::MAX + 1,
    ensures
        block_views(r@) == blocks_of_lines(start_block, line_texts(lines@)),
{
    let mut blocks: Vec<Block> = Vec::new();
    let mut i: usize = 0;
    assert(line_texts(lines@).take(0) =~= Seq::<Option<Seq<char>>>::empty());
    assert(block_views(blocks@) =~= blocks_of_lines(start_block, line_texts(lines@).take(0)));
    while i < lines.len()
        invariant
            i <= lines@.len(),
            start_block + lines@.len() <= u64::MAX + 1,
            block_views(blocks@) == blocks_of_lines(
                start_block,
                line_texts(lines@).take(i as int),
            ),
        decreases lines@.len() - i,
    {
        let ghost seen = line_texts(lines@).take(i as int);
        let ghost more = line_texts(lines@).take(i + 1);
        let ghost held = blocks@;
        proof {
            assert(more.drop_last() =~= seen);
            assert(more.last() == line_texts(lines@)[i as int]);
        }
        match &lines[i] {
            Some(text) => {
                if !blank(text.as_str()) {
                    let number = start_block + i as u64;
                    match block_from(number, parse_json(text.as_str())) {
                        Some(block) => {
                            blocks.push(block);
                            assert(block_views(blocks@) =~= block_views(held).push(
                                (number as int, block.data),
                            ));
                        },
                        None => {},
                    }
                }
            },
            None => {},
        }
        i = i + 1;
    }
    assert(line_texts(lines@).take(lines@.len() as int) =~= line_texts(lines@));
    blocks
}

} // verus!
