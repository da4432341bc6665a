//! Source files offered to the library, and which of them are taken for images.

use crate::average::weighted_average;
use crate::errors::AppError;
use crate::color::Color;
use crate::mask::{MaskView, WeightingMask};
use crate::raster::{Raster, RasterView};
use crate::tile::{views_of, Tile, TileView};
use vstd::prelude::*;
use vstd::string::StrSliceExecFns;

verus! {

/// A file found under the source directory: its path, the extension of its name if
/// it has one, and its content.
pub struct SourceFile {
    pub path: String,
    pub extension: Option<String>,
    pub bytes: Vec<u8>,
}

impl SourceFile {
    /// Whether the file is taken for an image, going by its extension.
    pub open spec fn supported(self) -> bool {
        self.extension matches Some(extension) && supported_extension(extension@)
    }

    /// Whether the file is taken for an image, going by its extension.
    pub fn is_supported(&self) -> (res: bool)
        ensures
            res == self.supported(),
    {
        match &self.extension {
            Some(extension) => is_supported_extension(extension.as_str()),
            None => false,
        }
    }
}

/// Whether `text` spells a word, each letter in either case: `small` holds the word in
/// small letters and `capital` in capitals.
pub open spec fn spells(text: Seq<char>, small: Seq<char>, capital: Seq<char>) -> bool {
    &&& text.len() == small.len()
    &&& forall|i: int| 0 <= i < text.len() ==> #[trigger] text[i] == small[i] || text[i] == capital[i]
}

/// Whether a file with the extension `extension` is taken for an image: `jpg`,
/// `jpeg` or `png`, in any mix of cases.
pub open spec fn supported_extension(extension: Seq<char>) -> bool {
    ||| spells(extension, seq!['j', 'p', 'g'], seq!['J', 'P', 'G'])
    ||| spells(extension, seq!['j', 'p', 'e', 'g'], seq!['J', 'P', 'E', 'G'])
    ||| spells(extension, seq!['p', 'n', 'g'], seq!['P', 'N', 'G'])
}

fn spells_word(text: &str, small: &str, capital: &str) -> (res: bool)
    requires
        small@.len() == capital@.len(),
    ensures
        res == spells(text@, small@, capital@),
{
    let n = text.unicode_len();
    if n != small.unicode_len() {
        return false;
    }
    let mut i: usize = 0;
    while i < n
        invariant
            i <= n,
            n == text@.len(),
            n == small@.len(),
            n == capital@.len(),
            forall|k: int| 0 <= k < i ==> #[trigger] text@[k] == small@[k] || text@[k] == capital@[k],
        decreases n - i,
    {
        let c = text.get_char(i);
        if c != small.get_char(i) && c != capital.get_char(i) {
            return false;
        }
        i += 1;
    }
    true
}

/// Whether a file with the extension `extension` is taken for an image.
pub fn is_supported_extension(extension: &str) -> (res: bool)
    ensures
        res == supported_extension(extension@),
{
    proof {
        reveal_strlit("jpg");
        reveal_strlit("JPG");
        reveal_strlit("jpeg");
        reveal_strlit("JPEG");
        reveal_strlit("png");
        reveal_strlit("PNG");
    }
    spells_word(extension, "jpg", "JPG") || spells_word(extension, "jpeg", "JPEG") || spells_word(
        extension,
        "png",
        "PNG",
    )
}

/// Whether `tiles` come, in order, from files among `files` that are taken for
/// images: `origin` names for each tile the file it was made from.
pub open spec fn made_from(tiles: Seq<TileView>, files: Seq<SourceFile>, origin: Seq<int>) -> bool {
    &&& origin.len() == tiles.len()
    &&& forall|i: int| 0 <= i < origin.len() ==> 0 <= #[trigger] origin[i] < files.len()
    &&& forall|i: int, j: int| 0 <= i < j < origin.len() ==> #[trigger] origin[i] < #[trigger] origin[j]
    &&& forall|i: int|
        0 <= i < tiles.len() ==> (#[trigger] tiles[i]).path == files[origin[i]].path@
            && files[origin[i]].supported()
}

/// The tile of a file whose picture was decoded and resized, if the file is taken
/// for an image: `None` for a file of another kind, and where preparing the picture
/// failed or it has not the size of the mask.
pub fn tile_of_prepared(
    path: String,
    extension: &Option<String>,
    prepared: Result<Raster, AppError>,
    mask: &WeightingMask,
) -> (res: Option<Tile>)
    ensures
        res is Some <==> ((extension matches Some(found) && supported_extension(found@)) && (
        prepared matches Ok(picture) && picture@.width == mask@.size && picture@.height
            == mask@.size)),
        res matches Some(tile) ==> (prepared matches Ok(picture) && tile@.wf() && tile@ == (TileView {
            path: path@,
            color: weighted_average(picture@, mask@),
            tile_size: mask@.size,
            image: None,
        })),
{
    let taken = match extension {
        Some(found) => is_supported_extension(found.as_str()),
        None => false,
    };
    if taken {
        Tile::from_prepared(path, prepared, mask)
    } else {
        None
    }
}

/// Whether `color` is the weighted average under `mask` of some picture that has the
/// size of the mask.
pub open spec fn averages_a_picture(color: Color, mask: MaskView) -> bool {
    exists|picture: RasterView|
        picture.wf() && picture.width == mask.size && picture.height == mask.size && color
            == #[trigger] weighted_average(picture, mask)
}

/// The tile of a file, if the file is taken for an image and can be decoded. Files of
/// other kinds are not even opened and give `None`. The tile of an image has the path
/// of the file, the side of the mask and an empty cache, and its colour is the
/// weighted average under the mask of the picture that decoding and resizing the
/// file gave; whether an image can be decoded is for the decoder to say.
pub fn tile_of(file: SourceFile, mask: &WeightingMask) -> (res: Option<Tile>)
    ensures
        !file.supported() ==> res is None,
        res matches Some(tile) ==> file.supported() && tile@.wf() && tile@.path == file.path@
            && tile@.tile_size == mask@.size && tile@.image is None && averages_a_picture(
            tile@.color,
            mask@,
        ),
{
    if !file.is_supported() {
        return None;
    }
    let SourceFile { path, extension, bytes } = file;
    let prepared = Tile::prepare(&bytes, mask.size());
    let ghost outcome = prepared;
    let res = tile_of_prepared(path, &extension, prepared, mask);
    proof {
        if res is Some {
            let picture = outcome->Ok_0@;
            assert(res->Some_0@.color == weighted_average(picture, mask@));
        }
    }
    res
}

/// Whether a file gives a tile, given the picture that preparing it gave, if any:
/// the file is taken for an image and the picture has the size of the mask.
pub open spec fn yields_tile(file: SourceFile, picture: Option<RasterView>, mask: MaskView) -> bool {
    file.supported() && (picture matches Some(prepared) && prepared.width == mask.size
        && prepared.height == mask.size)
}

/// The tile of a file whose prepared picture is `picture`: the path of the file, the
/// weighted average of the picture under the mask, and an empty cache.
pub open spec fn tile_from(file: SourceFile, picture: RasterView, mask: MaskView) -> TileView {
    TileView {
        path: file.path@,
        color: weighted_average(picture, mask),
        tile_size: mask.size,
        image: None,
    }
}

/// The tiles of a list of files, given for each file the picture that preparing it
/// gave, if any: in the order of the files, one tile for each file that gives one.
pub open spec fn tiles_from(
    files: Seq<SourceFile>,
    pictures: Seq<Option<RasterView>>,
    mask: MaskView,
) -> Seq<TileView>
    decreases files.len(),
{
    if files.len() == 0 {
        Seq::empty()
    } else {
        let before = tiles_from(files.drop_last(), pictures.drop_last(), mask);
        if yields_tile(files.last(), pictures.last(), mask) {
            before.push(tile_from(files.last(), pictures.last()->Some_0, mask))
        } else {
            before
        }
    }
}

/// How many of the files give a tile.
pub open spec fn giving_files(
    files: Seq<SourceFile>,
    pictures: Seq<Option<RasterView>>,
    mask: MaskView,
) -> nat
    decreases files.len(),
{
    if files.len() == 0 {
        0
    } else {
        giving_files(files.drop_last(), pictures.drop_last(), mask) + if yields_tile(
            files.last(),
            pictures.last(),
            mask,
        ) {
            1nat
        } else {
            0nat
        }
    }
}

/// There are exactly as many tiles as files that give one; files of other kinds and
/// files whose picture could not be prepared do not count.
pub proof fn lemma_one_tile_for_each_giving_file(
    files: Seq<SourceFile>,
    pictures: Seq<Option<RasterView>>,
    mask: MaskView,
)
    ensures
        tiles_from(files, pictures, mask).len() == giving_files(files, pictures, mask),
    decreases files.len(),
{
    if files.len() > 0 {
        lemma_one_tile_for_each_giving_file(files.drop_last(), pictures.drop_last(), mask);
    }
}

/// The pictures that a list of outcomes holds, `None` for each failure.
pub open spec fn pictures_of(prepared: Seq<Result<Raster, AppError>>) -> Seq<Option<RasterView>> {
    Seq::new(
        prepared.len(),
        |i: int|
            match prepared[i] {
                Ok(picture) => Some(picture@),
                Err(_) => None,
            },
    )
}

/// Whether every picture of the list is well formed and a square of side `size`, as
/// preparing a file leaves it.
pub open spec fn well_prepared(pictures: Seq<Option<RasterView>>, size: nat) -> bool {
    forall|i: int|
        0 <= i < pictures.len() ==> (#[trigger] pictures[i] matches Some(picture) ==> picture.wf()
            && picture.width == size && picture.height == size)
}

/// The tiles of two lists of files, one after the other, are the tiles of the first
/// followed by the tiles of the second.
pub proof fn lemma_tiles_from_concat(
    files: Seq<SourceFile>,
    pictures: Seq<Option<RasterView>>,
    more_files: Seq<SourceFile>,
    more_pictures: Seq<Option<RasterView>>,
    mask: MaskView,
)
    requires
        files.len() == pictures.len(),
        more_files.len() == more_pictures.len(),
    ensures
        tiles_from(files + more_files, pictures + more_pictures, mask) == tiles_from(
            files,
            pictures,
            mask,
        ) + tiles_from(more_files, more_pictures, mask),
    decreases more_files.len(),
{
    if more_files.len() == 0 {
        assert(files + more_files =~= files);
        assert(pictures + more_pictures =~= pictures);
        assert(tiles_from(files, pictures, mask) + Seq::<TileView>::empty() =~= tiles_from(
            files,
            pictures,
            mask,
        ));
    } else {
        let all_files = files + more_files;
        let all_pictures = pictures + more_pictures;
        lemma_tiles_from_concat(
            files,
            pictures,
            more_files.drop_last(),
            more_pictures.drop_last(),
            mask,
        );
        assert(all_files.drop_last() =~= files + more_files.drop_last());
        assert(all_pictures.drop_last() =~= pictures + more_pictures.drop_last());
        assert(all_files.last() == more_files.last());
        assert(all_pictures.last() == more_pictures.last());
        let head = tiles_from(files, pictures, mask);
        let tail = tiles_from(more_files.drop_last(), more_pictures.drop_last(), mask);
        if yields_tile(more_files.last(), more_pictures.last(), mask) {
            let tile = tile_from(more_files.last(), more_pictures.last()->Some_0, mask);
            assert((head + tail).push(tile) =~= head + tail.push(tile));
        }
    }
}

/// A single file gives its tile, or nothing.
pub proof fn lemma_tiles_from_one(file: SourceFile, picture: Option<RasterView>, mask: MaskView)
    ensures
        tiles_from(seq![file], seq![picture], mask) == if yields_tile(file, picture, mask) {
            seq![tile_from(file, picture->Some_0, mask)]
        } else {
            Seq::<TileView>::empty()
        },
{
    let files = seq![file];
    let pictures = seq![picture];
    assert(files.drop_last().len() == 0);
    assert(tiles_from(files.drop_last(), pictures.drop_last(), mask) == Seq::<TileView>::empty());
    assert(files.last() == file && pictures.last() == picture);
    if yields_tile(file, picture, mask) {
        assert(Seq::<TileView>::empty().push(tile_from(file, picture->Some_0, mask)) =~= seq![
            tile_from(file, picture->Some_0, mask),
        ]);
    }
}

/// A file that gives no tile, because it is of another kind or its picture could not
/// be prepared, changes nothing: wherever it stands in the list, the tiles are those
/// of the list without it.
pub proof fn lemma_other_files_add_nothing(
    files: Seq<SourceFile>,
    pictures: Seq<Option<RasterView>>,
    other: SourceFile,
    outcome: Option<RasterView>,
    more_files: Seq<SourceFile>,
    more_pictures: Seq<Option<RasterView>>,
    mask: MaskView,
)
    requires
        files.len() == pictures.len(),
        more_files.len() == more_pictures.len(),
        !yields_tile(other, outcome, mask),
    ensures
        tiles_from(
            files + seq![other] + more_files,
            pictures + seq![outcome] + more_pictures,
            mask,
        ) == tiles_from(files + more_files, pictures + more_pictures, mask),
{
    lemma_tiles_from_one(other, outcome, mask);
    lemma_tiles_from_concat(files, pictures, seq![other], seq![outcome], mask);
    lemma_tiles_from_concat(
        files + seq![other],
        pictures + seq![outcome],
        more_files,
        more_pictures,
        mask,
    );
    lemma_tiles_from_concat(files, pictures, more_files, more_pictures, mask);
    assert(tiles_from(files, pictures, mask) + Seq::<TileView>::empty() =~= tiles_from(
        files,
        pictures,
        mask,
    ));
}

/// Where every file gives a tile, there are as many tiles as files, and tile `i` is
/// the tile of file `i`: its path, and the colour of its own picture.
pub proof fn lemma_every_file_gives_its_tile(
    files: Seq<SourceFile>,
    pictures: Seq<Option<RasterView>>,
    mask: MaskView,
)
    requires
        files.len() == pictures.len(),
        forall|i: int| 0 <= i < files.len() ==> yields_tile(#[trigger] files[i], pictures[i], mask),
    ensures
        tiles_from(files, pictures, mask).len() == files.len(),
        forall|i: int|
            0 <= i < files.len() ==> #[trigger] tiles_from(files, pictures, mask)[i] == tile_from(
                files[i],
                pictures[i]->Some_0,
                mask,
            ),
    decreases files.len(),
{
    if files.len() > 0 {
        let front = files.drop_last();
        assert forall|i: int| 0 <= i < front.len() implies yields_tile(
            #[trigger] front[i],
            pictures.drop_last()[i],
            mask,
        ) by {
            assert(front[i] == files[i]);
        }
        lemma_every_file_gives_its_tile(front, pictures.drop_last(), mask);
        assert(yields_tile(files[files.len() - 1], pictures[files.len() - 1], mask));
    }
}

/// Every tile of a list of files comes from a file of the list that gives a tile,
/// later tiles from later files; so there are no more tiles than files, and each has
/// the side of the mask and an empty cache.
pub proof fn lemma_tiles_come_from_files(
    files: Seq<SourceFile>,
    pictures: Seq<Option<RasterView>>,
    mask: MaskView,
) -> (origin: Seq<int>)
    requires
        files.len() == pictures.len(),
    ensures
        made_from(tiles_from(files, pictures, mask), files, origin),
        forall|i: int|
            0 <= i < origin.len() ==> yields_tile(
                files[#[trigger] origin[i]],
                pictures[origin[i]],
                mask,
            ) && tiles_from(files, pictures, mask)[i] == tile_from(
                files[origin[i]],
                pictures[origin[i]]->Some_0,
                mask,
            ),
        tiles_from(files, pictures, mask).len() <= files.len(),
    decreases files.len(),
{
    if files.len() == 0 {
        Seq::empty()
    } else {
        let front = files.drop_last();
        let before = lemma_tiles_come_from_files(front, pictures.drop_last(), mask);
        let last = files.len() - 1;
        assert forall|i: int| 0 <= i < before.len() implies files[#[trigger] before[i]]
            == front[before[i]] && pictures[before[i]] == pictures.drop_last()[before[i]] by {}
        if yields_tile(files.last(), pictures.last(), mask) {
            before.push(last)
        } else {
            before
        }
    }
}

fn reversed<T>(items: Vec<T>) -> (out: Vec<T>)
    ensures
        out@.len() == items@.len(),
        forall|k: int| 0 <= k < out@.len() ==> #[trigger] out@[k] == items@[items@.len() - 1 - k],
{
    let ghost given = items@;
    let mut pending = items;
    let mut out: Vec<T> = Vec::new();
    while pending.len() > 0
        invariant
            out@.len() + pending@.len() == given.len(),
            forall|k: int| 0 <= k < out@.len() ==> #[trigger] out@[k] == given[given.len() - 1 - k],
            forall|k: int| 0 <= k < pending@.len() ==> #[trigger] pending@[k] == given[k],
        decreases pending@.len(),
    {
        if let Some(item) = pending.pop() {
            out.push(item);
        }
    }
    out
}

/// The tiles of a list of files whose pictures were prepared: in the order of the
/// files, one tile for each file that is taken for an image and whose picture was
/// prepared and has the size of the mask.
pub fn tiles_of_prepared(
    files: Vec<SourceFile>,
    prepared: Vec<Result<Raster, AppError>>,
    mask: &WeightingMask,
) -> (tiles: Vec<Tile>)
    requires
        files@.len() == prepared@.len(),
    ensures
        views_of(tiles@) == tiles_from(files@, pictures_of(prepared@), mask@),
{
    let ghost given = files@;
    let ghost pictures = pictures_of(prepared@);
    let total = files.len();
    let mut rest = reversed(files);
    let mut outcomes = reversed(prepared);
    let mut tiles: Vec<Tile> = Vec::new();
    let mut done: usize = 0;
    assert(given.take(0) =~= Seq::<SourceFile>::empty());
    while done < total
        invariant
            done <= total,
            given.len() == total,
            pictures.len() == total,
            rest@.len() == total - done,
            outcomes@.len() == total - done,
            forall|k: int| 0 <= k < rest@.len() ==> #[trigger] rest@[k] == given[total - 1 - k],
            forall|k: int|
                0 <= k < outcomes@.len() ==> match #[trigger] outcomes@[k] {
                    Ok(picture) => pictures[total - 1 - k] == Some(picture@),
                    Err(_) => pictures[total - 1 - k] is None,
                },
            views_of(tiles@) == tiles_from(
                given.take(done as int),
                pictures.take(done as int),
                mask@,
            ),
        decreases total - done,
    {
        let file = rest.pop();
        let outcome = outcomes.pop();
        let ghost before = views_of(tiles@);
        proof {
            lemma_tiles_from_step(given, pictures, mask@, done as int);
        }
        match (file, outcome) {
            (Some(file), Some(outcome)) => {
                let SourceFile { path, extension, bytes: _ } = file;
                if let Some(tile) = tile_of_prepared(path, &extension, outcome, mask) {
                    tiles.push(tile);
                    assert(views_of(tiles@) =~= before.push(
                        tile_from(given[done as int], pictures[done as int]->Some_0, mask@),
                    ));
                }
            },
            _ => {},
        }
        done += 1;
    }
    assert(given.take(total as int) =~= given);
    assert(pictures.take(total as int) =~= pictures);
    tiles
}

/// What one more file adds to the tiles of the files before it.
proof fn lemma_tiles_from_step(
    files: Seq<SourceFile>,
    pictures: Seq<Option<RasterView>>,
    mask: MaskView,
    done: int,
)
    requires
        0 <= done < files.len(),
        files.len() == pictures.len(),
    ensures
        tiles_from(files.take(done + 1), pictures.take(done + 1), mask) == if yields_tile(
            files[done],
            pictures[done],
            mask,
        ) {
            tiles_from(files.take(done), pictures.take(done), mask).push(
                tile_from(files[done], pictures[done]->Some_0, mask),
            )
        } else {
            tiles_from(files.take(done), pictures.take(done), mask)
        },
{
    assert(files.take(done + 1).drop_last() =~= files.take(done));
    assert(pictures.take(done + 1).drop_last() =~= pictures.take(done));
    assert(files.take(done + 1).last() == files[done]);
    assert(pictures.take(done + 1).last() == pictures[done]);
}

/// Makes a tile of every file that is taken for an image and can be decoded, in the
/// order of the files. Files of other kinds, and images that cannot be decoded, are
/// left out without complaint. Whether an image can be decoded is for the decoder to
/// say: the tiles are those that `tiles_of_prepared` gives for the pictures that
/// preparing the files gave.
pub fn load_library(files: Vec<SourceFile>, mask: &WeightingMask) -> (tiles: Vec<Tile>)
    ensures
        exists|pictures: Seq<Option<RasterView>>|
            pictures.len() == files@.len() && well_prepared(pictures, mask@.size) && views_of(
                tiles@,
            ) == #[trigger] tiles_from(files@, pictures, mask@),
        tiles@.len() <= files@.len(),
        forall|i: int|
            0 <= i < tiles@.len() ==> (#[trigger] tiles@[i])@.wf() && tiles@[i]@.tile_size
                == mask@.size && tiles@[i]@.image is None,
        exists|origin: Seq<int>| made_from(views_of(tiles@), files@, origin),
{
    let ghost given = files@;
    let ghost mut pictures: Seq<Option<RasterView>> = Seq::empty();
    let total = files.len();
    let mut rest = reversed(files);
    let mut tiles: Vec<Tile> = Vec::new();
    let mut done: usize = 0;
    assert(given.take(0) =~= Seq::<SourceFile>::empty());
    while done < total
        invariant
            done <= total,
            given.len() == total,
            rest@.len() == total - done,
            forall|k: int| 0 <= k < rest@.len() ==> #[trigger] rest@[k] == given[total - 1 - k],
            pictures.len() == done,
            well_prepared(pictures, mask@.size),
            views_of(tiles@) == tiles_from(given.take(done as int), pictures, mask@),
            forall|i: int|
                0 <= i < tiles@.len() ==> (#[trigger] tiles@[i])@.wf() && tiles@[i]@.tile_size
                    == mask@.size && tiles@[i]@.image is None,
        decreases total - done,
    {
        if let Some(file) = rest.pop() {
            let ghost before = views_of(tiles@);
            let ghost mut outcome: Option<RasterView> = None;
            if file.is_supported() {
                let SourceFile { path, extension, bytes } = file;
                let prepared = Tile::prepare(&bytes, mask.size());
                proof {
                    if prepared is Ok {
                        outcome = Some(prepared->Ok_0@);
                    }
                }
                if let Some(tile) = tile_of_prepared(path, &extension, prepared, mask) {
                    tiles.push(tile);
                    assert(views_of(tiles@) =~= before.push(
                        tile_from(given[done as int], outcome->Some_0, mask@),
                    ));
                }
            }
            proof {
                let longer = pictures.push(outcome);
                assert(given.take(done + 1).drop_last() =~= given.take(done as int));
                assert(longer.drop_last() =~= pictures);
                assert(given.take(done + 1).last() == given[done as int]);
                assert(longer.last() == outcome);
                pictures = longer;
            }
        }
        done += 1;
    }
    proof {
        assert(given.take(total as int) =~= given);
        let origin = lemma_tiles_come_from_files(given, pictures, mask@);
        assert(made_from(views_of(tiles@), given, origin));
    }
    tiles
}

} // verus!
