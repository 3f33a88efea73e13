//! What a command that is written out does: which image it is about, and where it is shown.

use super::laws::a_sent_image_is_read_back;
use super::model::{
    chunk_of, first_of, format_of, in_z_order, inserted_by_z, memory_of, newest_placements,
    pixels_of, placement_of, sorted_by_z, valid_dimensions, without_image, without_placement,
    ImageModel, KittyModel,
};
use super::params::{named_format, number, signed_number, ParamsModel};
use super::render::{places, ImagePlace};
use super::{
    sorting_orders, ImageFormat, KittyPlacement, PlacementRequest, MAX_KITTY_CACHE_BYTES,
    MAX_KITTY_IMAGES, MAX_KITTY_TRANSFER_BYTES,
};
use crate::outside::base64_decoding;
use crate::text::laws::{
    a_prefix_is_taken_off, a_written_number_is_read_back, cutting_once_undoes_joining,
    cutting_undoes_listing, is_free_of, listed,
};
use crate::text::decimal_text;
use vstd::prelude::*;
use vstd::utf8::encode_utf8;

verus! {

/// A control of a command: its key and its value.
pub type Control = (Seq<char>, Seq<char>);

/// A control as it is written.
pub open spec fn control_text(control: Control) -> Seq<char> {
    control.0.push('=') + control.1
}

pub open spec fn control_texts(controls: Seq<Control>) -> Seq<Seq<char>> {
    Seq::new(controls.len(), |i: int| control_text(controls[i]))
}

/// Controls that can be told apart where they are written one behind the other.
pub open spec fn can_be_written(controls: Seq<Control>) -> bool {
    &&& controls.len() > 0
    &&& forall|i: int|
        0 <= i < controls.len() ==> {
            &&& is_free_of((#[trigger] controls[i]).0, '=')
            &&& is_free_of(controls[i].0, ',') && is_free_of(controls[i].1, ',')
            &&& is_free_of(controls[i].0, ';') && is_free_of(controls[i].1, ';')
        }
}

/// A command without data, as it is written.
pub open spec fn command_text(controls: Seq<Control>) -> Seq<char> {
    seq!['G'] + listed(control_texts(controls), ',')
}

/// A command with data.
pub open spec fn command_with_data(controls: Seq<Control>, data: Seq<char>) -> Seq<char> {
    seq!['G'] + (listed(control_texts(controls), ',').push(';') + data)
}

/// The value that a key is given; of several the last one.
pub open spec fn given(controls: Seq<Control>, key: Seq<char>) -> Option<Seq<char>>
    decreases controls.len(),
{
    if controls.len() == 0 {
        None
    } else {
        match given(controls.drop_first(), key) {
            Some(value) => Some(value),
            None => if controls[0].0 == key {
                Some(controls[0].1)
            } else {
                None
            },
        }
    }
}

/// A number as the value of a control, where there is one.
pub open spec fn written(n: Option<u32>) -> Option<Seq<char>> {
    match n {
        Some(n) => Some(decimal_text(n as nat)),
        None => None,
    }
}

/// A signed number as the value of a control, where there is one.
pub open spec fn written_signed(n: Option<i32>) -> Option<Seq<char>> {
    match n {
        Some(n) => Some(
            if n < 0 {
                seq!['-'] + decimal_text((-n) as nat)
            } else {
                decimal_text(n as nat)
            },
        ),
        None => None,
    }
}

pub open spec fn or(n: Option<u32>, otherwise: u32) -> u32 {
    match n {
        Some(n) => n,
        None => otherwise,
    }
}

/// What the controls of a command say.
pub struct Said {
    pub action: Option<Seq<char>>,
    pub image: Option<u32>,
    pub placement: Option<u32>,
    pub width: Option<u32>,
    pub height: Option<u32>,
    pub columns: Option<u32>,
    pub rows: Option<u32>,
    pub x: Option<u32>,
    pub y: Option<u32>,
    pub z: Option<i32>,
}

/// Whether controls say something.
pub open spec fn say(controls: Seq<Control>, said: Said) -> bool {
    &&& given(controls, seq!['a']) == said.action
    &&& given(controls, seq!['i']) == written(said.image)
    &&& given(controls, seq!['p']) == written(said.placement)
    &&& given(controls, seq!['s']) == written(said.width)
    &&& given(controls, seq!['v']) == written(said.height)
    &&& given(controls, seq!['c']) == written(said.columns)
    &&& given(controls, seq!['r']) == written(said.rows)
    &&& given(controls, seq!['x']) == written(said.x)
    &&& given(controls, seq!['y']) == written(said.y)
    &&& given(controls, seq!['z']) == written_signed(said.z)
}

proof fn lemma_keys()
    ensures
        "a"@ == seq!['a'],
        "i"@ == seq!['i'],
        "I"@ == seq!['I'],
        "p"@ == seq!['p'],
        "f"@ == seq!['f'],
        "s"@ == seq!['s'],
        "v"@ == seq!['v'],
        "c"@ == seq!['c'],
        "r"@ == seq!['r'],
        "x"@ == seq!['x'],
        "y"@ == seq!['y'],
        "z"@ == seq!['z'],
        "m"@ == seq!['m'],
        "G"@ == seq!['G'],
        "t"@ == seq!['t'],
        "T"@ == seq!['T'],
        "d"@ == seq!['d'],
        "q"@ == seq!['q'],
        "0"@ == seq!['0'],
        "1"@ == seq!['1'],
{
    reveal_strlit("a");
    reveal_strlit("i");
    reveal_strlit("I");
    reveal_strlit("p");
    reveal_strlit("f");
    reveal_strlit("s");
    reveal_strlit("v");
    reveal_strlit("c");
    reveal_strlit("r");
    reveal_strlit("x");
    reveal_strlit("y");
    reveal_strlit("z");
    reveal_strlit("m");
    reveal_strlit("G");
    reveal_strlit("t");
    reveal_strlit("T");
    reveal_strlit("d");
    reveal_strlit("q");
    reveal_strlit("0");
    reveal_strlit("1");
    assert("a"@ =~= seq!['a']);
    assert("i"@ =~= seq!['i']);
    assert("I"@ =~= seq!['I']);
    assert("p"@ =~= seq!['p']);
    assert("f"@ =~= seq!['f']);
    assert("s"@ =~= seq!['s']);
    assert("v"@ =~= seq!['v']);
    assert("c"@ =~= seq!['c']);
    assert("r"@ =~= seq!['r']);
    assert("x"@ =~= seq!['x']);
    assert("y"@ =~= seq!['y']);
    assert("z"@ =~= seq!['z']);
    assert("m"@ =~= seq!['m']);
    assert("G"@ =~= seq!['G']);
    assert("t"@ =~= seq!['t']);
    assert("T"@ =~= seq!['T']);
    assert("d"@ =~= seq!['d']);
    assert("q"@ =~= seq!['q']);
    assert("0"@ =~= seq!['0']);
    assert("1"@ =~= seq!['1']);
}

/// One character texts are the same only where the characters are.
proof fn lemma_apart(a: char, b: char)
    ensures
        (seq![a] == seq![b]) == (a == b),
{
    assert(seq![a][0] == a && seq![b][0] == b);
}

proof fn lemma_keys_apart()
    ensures
        forall|a: char, b: char| (#[trigger] one(a) == #[trigger] one(b)) == (a == b),
        forall|a: char| #[trigger] one(a) == seq![a],
{
    assert forall|a: char, b: char| (#[trigger] one(a) == #[trigger] one(b)) == (a == b) by {
        lemma_apart(a, b);
    }
}

spec fn one(c: char) -> Seq<char> {
    seq![c]
}

/// What a number is read as, or what it was before.
spec fn read_or(value: Option<Seq<char>>, before: Option<u32>) -> Option<u32> {
    match value {
        Some(v) => number(v),
        None => before,
    }
}

spec fn took(p: ParamsModel, controls: Seq<Control>, q: ParamsModel) -> bool {
    &&& q.action == (match given(controls, seq!['a']) {
        Some(v) => Some(v),
        None => p.action,
    })
    &&& q.format == (match given(controls, seq!['f']) {
        Some(v) => Some(v),
        None => p.format,
    })
    &&& q.image_id == read_or(given(controls, seq!['i']), p.image_id)
    &&& q.placement_id == read_or(given(controls, seq!['p']), p.placement_id)
    &&& q.width == read_or(given(controls, seq!['s']), p.width)
    &&& q.height == read_or(given(controls, seq!['v']), p.height)
    &&& q.columns == read_or(given(controls, seq!['c']), p.columns)
    &&& q.rows == read_or(given(controls, seq!['r']), p.rows)
    &&& q.x == read_or(given(controls, seq!['x']), p.x)
    &&& q.y == read_or(given(controls, seq!['y']), p.y)
    &&& q.z == (match given(controls, seq!['z']) {
        Some(v) => signed_number(v),
        None => p.z,
    })
    &&& q.more == (match given(controls, seq!['m']) {
        Some(v) => v == seq!['1'],
        None => p.more,
    })
    &&& q.data == p.data
}

#[verifier::spinoff_prover]
#[verifier::rlimit(40)]
proof fn lemma_control(p: ParamsModel, key: Seq<char>, value: Seq<char>)
    ensures
        p.with_control(key, value) matches Ok(q) ==> took(p, seq![(key, value)], q),
{
    lemma_keys();
    lemma_keys_apart();
    let single = seq![(key, value)];
    assert(single.drop_first() =~= Seq::empty());
    reveal_with_fuel(given, 2);
    assert forall|k: Seq<char>| #[trigger] given(single, k) == (if k == key {
        Some(value)
    } else {
        None
    }) by {}
    assert(one('a') == seq!['a'] && one('i') == seq!['i'] && one('I') == seq!['I'] && one('p')
        == seq!['p'] && one('f') == seq!['f'] && one('s') == seq!['s'] && one('v') == seq!['v']
        && one('c') == seq!['c'] && one('r') == seq!['r'] && one('x') == seq!['x'] && one('y')
        == seq!['y'] && one('z') == seq!['z'] && one('m') == seq!['m'] && one('0') == seq!['0']
        && one('1') == seq!['1']);
}

proof fn lemma_given_more(head: Control, rest: Seq<Control>, all: Seq<Control>, key: Seq<char>)
    requires
        all.len() > 0,
        all[0] == head,
        all.drop_first() == rest,
    ensures
        given(all, key) == (match given(rest, key) {
            Some(v) => Some(v),
            None => given(seq![head], key),
        }),
{
    reveal_with_fuel(given, 2);
    assert(seq![head].drop_first() =~= Seq::empty());
}

#[verifier::spinoff_prover]
#[verifier::rlimit(40)]
proof fn lemma_controls(p: ParamsModel, controls: Seq<Control>)
    requires
        controls.len() > 0 ==> can_be_written(controls),
    ensures
        p.with_all(control_texts(controls), true) matches Ok(q) ==> took(p, controls, q),
    decreases controls.len(),
{
    if controls.len() > 0 {
        let (key, value) = controls[0];
        let rest = controls.drop_first();
        let texts = control_texts(controls);
        assert(texts.drop_first() =~= control_texts(rest));
        assert(is_free_of(controls[0].0, '='));
        cutting_once_undoes_joining(key, '=', value);
        assert(texts[0] == control_text(controls[0]));
        lemma_control(p, key, value);
        if rest.len() > 0 {
            assert forall|i: int| 0 <= i < rest.len() implies {
                &&& is_free_of((#[trigger] rest[i]).0, '=')
                &&& is_free_of(rest[i].0, ',') && is_free_of(rest[i].1, ',')
                &&& is_free_of(rest[i].0, ';') && is_free_of(rest[i].1, ';')
            } by {
                assert(controls[i + 1] == rest[i]);
                assert(is_free_of(controls[i + 1].0, '='));
            }
        }
        match p.with_control(key, value) {
            Ok(q) => {
                lemma_controls(q, rest);
                let head = controls[0];
                lemma_given_more(head, rest, controls, seq!['a']);
                lemma_given_more(head, rest, controls, seq!['f']);
                lemma_given_more(head, rest, controls, seq!['i']);
                lemma_given_more(head, rest, controls, seq!['p']);
                lemma_given_more(head, rest, controls, seq!['s']);
                lemma_given_more(head, rest, controls, seq!['v']);
                lemma_given_more(head, rest, controls, seq!['c']);
                lemma_given_more(head, rest, controls, seq!['r']);
                lemma_given_more(head, rest, controls, seq!['x']);
                lemma_given_more(head, rest, controls, seq!['y']);
                lemma_given_more(head, rest, controls, seq!['z']);
                lemma_given_more(head, rest, controls, seq!['m']);
            },
            Err(_) => {},
        }
    }
}

/// No semicolon stands in what is written of controls.
proof fn lemma_no_semicolon(controls: Seq<Control>)
    requires
        can_be_written(controls),
    ensures
        is_free_of(listed(control_texts(controls), ','), ';'),
        forall|i: int| 0 <= i < controls.len() ==> is_free_of(#[trigger] control_texts(controls)[i], ','),
    decreases controls.len(),
{
    let texts = control_texts(controls);
    assert forall|i: int| 0 <= i < controls.len() implies is_free_of(#[trigger] texts[i], ',') by {
        assert(is_free_of(controls[i].0, ','));
        assert(texts[i] == control_text(controls[i]));
    }
    let first = control_text(controls[0]);
    assert(is_free_of(controls[0].0, '='));
    assert(is_free_of(first, ';'));
    let rest = controls.drop_first();
    assert(texts.drop_first() =~= control_texts(rest));
    if rest.len() > 0 {
        assert forall|i: int| 0 <= i < rest.len() implies {
            &&& is_free_of((#[trigger] rest[i]).0, '=')
            &&& is_free_of(rest[i].0, ',') && is_free_of(rest[i].1, ',')
            &&& is_free_of(rest[i].0, ';') && is_free_of(rest[i].1, ';')
        } by {
            assert(controls[i + 1] == rest[i]);
            assert(is_free_of(controls[i + 1].0, '='));
        }
        lemma_no_semicolon(rest);
        let tail = listed(control_texts(rest), ',');
        let all = listed(texts, ',');
        assert(all == first.push(',') + tail);
        assert forall|i: int| 0 <= i < all.len() implies #[trigger] all[i] != ';' by {
            if i < first.len() {
                assert(all[i] == first[i]);
            } else if i > first.len() {
                assert(all[i] == tail[i - first.len() - 1]);
            }
        }
    }
}

proof fn lemma_parsed(controls: Seq<Control>, data: Seq<char>)
    requires
        can_be_written(controls),
    ensures
        ParamsModel::parsed(command_text(controls)) == ParamsModel::empty().with_all(
            control_texts(controls),
            true,
        ),
        ParamsModel::parsed(command_with_data(controls, data)) == (
        match ParamsModel::empty().with_all(control_texts(controls), true) {
            Ok(params) => if data.len() > 0 {
                Ok(ParamsModel { data: Some(data), ..params })
            } else {
                Ok(params)
            },
            Err(e) => Err(e),
        }),
{
    lemma_keys();
    lemma_no_semicolon(controls);
    let texts = control_texts(controls);
    let body = listed(texts, ',');
    cutting_undoes_listing(texts, ',');
    cutting_once_undoes_joining(body, ';', data);
    a_prefix_is_taken_off(seq!['G'], body);
    a_prefix_is_taken_off(seq!['G'], body.push(';') + data);
}

proof fn lemma_said(controls: Seq<Control>, said: Said, q: ParamsModel)
    requires
        say(controls, said),
        took(ParamsModel::empty(), controls, q),
    ensures
        q.action == said.action,
        q.image_id == said.image,
        q.placement_id == said.placement,
        q.width == said.width,
        q.height == said.height,
        q.columns == said.columns,
        q.rows == said.rows,
        q.x == said.x,
        q.y == said.y,
        q.z == said.z,
{
    lemma_number(said.image);
    lemma_number(said.placement);
    lemma_number(said.width);
    lemma_number(said.height);
    lemma_number(said.columns);
    lemma_number(said.rows);
    lemma_number(said.x);
    lemma_number(said.y);
    if let Some(z) = said.z {
        if z < 0 {
            a_written_number_is_read_back((-z) as nat, 0);
        } else {
            a_written_number_is_read_back(z as nat, 0);
        }
    }
}

proof fn lemma_number(n: Option<u32>)
    ensures
        n matches Some(n) ==> number(decimal_text(n as nat)) == Some(n),
{
    if let Some(n) = n {
        a_written_number_is_read_back(n as nat, 0xffff_ffff);
    }
}

/// A placement that was added is there.
proof fn lemma_placed(m: KittyModel, image: u32, request: PlacementRequest)
    ensures
        m.placed(image, request).placements.contains(
            KittyPlacement {
                image_id: image,
                placement_id: Some(or(request.placement_id, m.next_placement_id)),
                x: request.x,
                y: request.y,
                width: request.width,
                height: request.height,
                z_index: request.z,
            },
        ),
        m.placed(image, request).store == m.store,
{
    broadcast use vstd::seq_lib::group_to_multiset_ensures;

    reveal(KittyModel::placed);
    let p = KittyPlacement {
        image_id: image,
        placement_id: Some(or(request.placement_id, m.next_placement_id)),
        x: request.x,
        y: request.y,
        width: request.width,
        height: request.height,
        z_index: request.z,
    };
    let all = newest_placements(m.placements.push(p));
    assert(all[all.len() - 1] == p);
    assert(all.contains(p));
    sorting_orders(all);
    assert(all.to_multiset().count(p) > 0);
    assert(sorted_by_z(all).to_multiset().count(p) > 0);
    assert(sorted_by_z(all).contains(p));
}

/// A placement whose image is there is drawn.
proof fn lemma_drawn(m: KittyModel, n: int, k: int)
    requires
        0 <= k < n <= m.placements.len(),
        m.store.images.dom().contains(m.placements[k].image_id),
    ensures
        ({
            let p = m.placements[k];
            let image = m.store.images[p.image_id];
            places(m, n).contains(
                ImagePlace {
                    id: p.image_id,
                    col: p.x as usize,
                    row: p.y as usize,
                    cols: if p.width > 1 {
                        p.width as usize
                    } else {
                        1
                    },
                    rows: if p.height > 1 {
                        p.height as usize
                    } else {
                        1
                    },
                    width: image.width,
                    height: image.height,
                },
            )
        }),
    decreases n,
{
    let p = m.placements[k];
    let image = m.store.images[p.image_id];
    let place = ImagePlace {
        id: p.image_id,
        col: p.x as usize,
        row: p.y as usize,
        cols: if p.width > 1 {
            p.width as usize
        } else {
            1
        },
        rows: if p.height > 1 {
            p.height as usize
        } else {
            1
        },
        width: image.width,
        height: image.height,
    };
    let all = places(m, n);
    if k == n - 1 {
        assert(all.last() == place);
        assert(all[all.len() - 1] == place);
    } else {
        lemma_drawn(m, n - 1, k);
        let before = places(m, n - 1);
        let j = choose|j: int| 0 <= j < before.len() && before[j] == place;
        assert(all[j] == place);
    }
}

/// A place as it is drawn for an image: the column and the row, over at least one cell each
/// way, with the size of the image.
pub open spec fn is_drawn_at(
    m: KittyModel,
    image: u32,
    col: u32,
    row: u32,
    cols: u32,
    rows: u32,
) -> bool {
    exists|k: int|
        0 <= k < places(m, m.placements.len() as int).len() && {
            let place = #[trigger] places(m, m.placements.len() as int)[k];
            &&& place.id == image
            &&& place.col == col
            &&& place.row == row
            &&& place.cols == cols || cols == 0 && place.cols == 1
            &&& place.rows == rows || rows == 0 && place.rows == 1
            &&& place.width == m.store.images[image].width
            &&& place.height == m.store.images[image].height
        }
}

proof fn lemma_contained_is_drawn(m: KittyModel, p: KittyPlacement)
    requires
        m.placements.contains(p),
        m.store.images.dom().contains(p.image_id),
    ensures
        is_drawn_at(m, p.image_id, p.x, p.y, p.width, p.height),
{
    let k = choose|k: int| 0 <= k < m.placements.len() && m.placements[k] == p;
    let n = m.placements.len() as int;
    lemma_drawn(m, n, k);
    let image = m.store.images[p.image_id];
    let place = ImagePlace {
        id: p.image_id,
        col: p.x as usize,
        row: p.y as usize,
        cols: if p.width > 1 {
            p.width as usize
        } else {
            1
        },
        rows: if p.height > 1 {
            p.height as usize
        } else {
            1
        },
        width: image.width,
        height: image.height,
    };
    let j = choose|j: int| 0 <= j < places(m, n).len() && places(m, n)[j] == place;
    assert(places(m, n)[j] == place);
}

/// A command to place an image (`a=p`) that is accepted shows it where it says: `x` is the
/// column and `y` the row, zero where they are not given; `c` and `r`, or else `s` and `v`,
/// or else one, are the columns and rows; `z` is the level and `p` the placement's id.
pub proof fn an_image_is_placed_where_the_command_says(
    m: KittyModel,
    controls: Seq<Control>,
    said: Said,
)
    requires
        can_be_written(controls),
        say(controls, said),
        said.action == Some(seq!['p']),
        m.handled(command_text(controls)).1 is Ok,
    ensures
        said.image is Some,
        ({
            let after = m.handled(command_text(controls)).0;
            let image = said.image->0;
            let cols = or(said.columns, or(said.width, 1));
            let rows = or(said.rows, or(said.height, 1));
            &&& after.placements.contains(
                KittyPlacement {
                    image_id: image,
                    placement_id: Some(or(said.placement, m.next_placement_id)),
                    x: or(said.x, 0),
                    y: or(said.y, 0),
                    width: cols,
                    height: rows,
                    z_index: if said.z is Some {
                        said.z->0
                    } else {
                        0
                    },
                },
            )
            &&& after.store == m.store
            &&& m.store.images.dom().contains(image) ==> is_drawn_at(
                after,
                image,
                or(said.x, 0),
                or(said.y, 0),
                cols,
                rows,
            )
        }),
{
    lemma_keys();
    lemma_keys_apart();
    lemma_parsed(controls, Seq::empty());
    lemma_controls(ParamsModel::empty(), controls);
    reveal(KittyModel::commanded);
    let q = ParamsModel::parsed(command_text(controls))->Ok_0;
    lemma_said(controls, said, q);
    assert(one('p') == seq!['p'] && one('t') == seq!['t'] && one('T') == seq!['T']);
    let request = PlacementRequest {
        width: first_of(q.columns, q.width).unwrap_or(1),
        height: first_of(q.rows, q.height).unwrap_or(1),
        ..placement_of(q)
    };
    lemma_placed(m, q.image_id->0, request);
    let after = m.handled(command_text(controls)).0;
    let p = KittyPlacement {
        image_id: said.image->0,
        placement_id: Some(or(said.placement, m.next_placement_id)),
        x: or(said.x, 0),
        y: or(said.y, 0),
        width: or(said.columns, or(said.width, 1)),
        height: or(said.rows, or(said.height, 1)),
        z_index: if said.z is Some {
            said.z->0
        } else {
            0
        },
    };
    assert(after.placements.contains(p));
    if m.store.images.dom().contains(said.image->0) {
        lemma_contained_is_drawn(after, p);
    }
}

/// A control whose value can be read.
pub open spec fn can_be_read(control: Control) -> bool {
    let (key, value) = control;
    ||| key == seq!['a'] || key == seq!['f']
    ||| (key == seq!['i'] || key == seq!['I'] || key == seq!['p'] || key == seq!['s'] || key
        == seq!['v'] || key == seq!['c'] || key == seq!['r'] || key == seq!['x'] || key
        == seq!['y']) && exists|n: u32| value == #[trigger] decimal_text(n as nat)
    ||| key == seq!['z'] && exists|n: i32| Some(value) == #[trigger] written_signed(Some(n))
    ||| key == seq!['m'] && (value == seq!['0'] || value == seq!['1'])
}

#[verifier::spinoff_prover]
proof fn lemma_readable(p: ParamsModel, control: Control)
    requires
        can_be_read(control),
    ensures
        p.with_control(control.0, control.1) is Ok,
{
    lemma_keys();
    lemma_keys_apart();
    let (key, value) = control;
    assert(one('a') == seq!['a'] && one('i') == seq!['i'] && one('I') == seq!['I'] && one('p')
        == seq!['p'] && one('f') == seq!['f'] && one('s') == seq!['s'] && one('v') == seq!['v']
        && one('c') == seq!['c'] && one('r') == seq!['r'] && one('x') == seq!['x'] && one('y')
        == seq!['y'] && one('z') == seq!['z'] && one('m') == seq!['m'] && one('0') == seq!['0']
        && one('1') == seq!['1']);
    if key == seq!['z'] {
        let n = choose|n: i32| Some(value) == #[trigger] written_signed(Some(n));
        if n < 0 {
            a_written_number_is_read_back((-n) as nat, 0);
        } else {
            a_written_number_is_read_back(n as nat, 0);
        }
    } else if exists|n: u32| value == #[trigger] decimal_text(n as nat) {
        let n = choose|n: u32| value == #[trigger] decimal_text(n as nat);
        lemma_number(Some(n));
    }
}

proof fn lemma_all_readable(p: ParamsModel, controls: Seq<Control>)
    requires
        forall|i: int| 0 <= i < controls.len() ==> can_be_read(#[trigger] controls[i]),
        controls.len() > 0 ==> can_be_written(controls),
    ensures
        p.with_all(control_texts(controls), true) is Ok,
    decreases controls.len(),
{
    if controls.len() > 0 {
        let (key, value) = controls[0];
        let rest = controls.drop_first();
        let texts = control_texts(controls);
        assert(texts.drop_first() =~= control_texts(rest));
        assert(is_free_of(controls[0].0, '='));
        cutting_once_undoes_joining(key, '=', value);
        assert(texts[0] == control_text(controls[0]));
        assert(can_be_read(controls[0]));
        lemma_readable(p, controls[0]);
        if rest.len() > 0 {
            assert forall|i: int| 0 <= i < rest.len() implies {
                &&& is_free_of((#[trigger] rest[i]).0, '=')
                &&& is_free_of(rest[i].0, ',') && is_free_of(rest[i].1, ',')
                &&& is_free_of(rest[i].0, ';') && is_free_of(rest[i].1, ';')
            } by {
                assert(controls[i + 1] == rest[i]);
                assert(is_free_of(controls[i + 1].0, '='));
            }
            assert forall|i: int| 0 <= i < rest.len() implies can_be_read(#[trigger] rest[i]) by {
                assert(can_be_read(controls[i + 1]));
            }
        }
        lemma_all_readable(p.with_control(key, value)->Ok_0, rest);
    }
}

/// A command whose controls can be read is accepted where it places or deletes what it
/// names, and where it only asks whether there are graphics; that changes nothing.
pub proof fn readable_commands_are_accepted(m: KittyModel, controls: Seq<Control>, said: Said)
    requires
        can_be_written(controls),
        forall|i: int| 0 <= i < controls.len() ==> can_be_read(#[trigger] controls[i]),
        say(controls, said),
    ensures
        said.action == Some(seq!['p']) ==> (m.handled(command_text(controls)).1 is Ok
            <==> said.image is Some),
        said.action == Some(seq!['d']) ==> (m.handled(command_text(controls)).1 is Ok
            <==> said.image is Some || said.placement is Some),
        said.action == Some(seq!['q']) ==> m.handled(command_text(controls)) == (m, Ok::<
            (),
            Seq<char>,
        >(())),
{
    lemma_keys();
    lemma_keys_apart();
    assert(one('p') == seq!['p'] && one('t') == seq!['t'] && one('T') == seq!['T'] && one('d')
        == seq!['d'] && one('q') == seq!['q']);
    lemma_parsed(controls, Seq::empty());
    lemma_controls(ParamsModel::empty(), controls);
    lemma_all_readable(ParamsModel::empty(), controls);
    reveal(KittyModel::commanded);
    reveal(KittyModel::deleted);
    let q = ParamsModel::parsed(command_text(controls))->Ok_0;
    lemma_said(controls, said, q);
}

proof fn lemma_trimmed_keeps_the_next_id(m: KittyModel)
    ensures
        m.trimmed().next_placement_id == m.next_placement_id,
    decreases m.store.order.len(),
{
    if m.store.order.len() > 0 && !m.store.within_limits() {
        lemma_trimmed_keeps_the_next_id(m.without_oldest());
    }
}

/// A command that sends an image and shows it at once (`a=T`), if it is accepted and no more
/// chunks follow, shows it where it says, as a command to place it does. Without `c` and `r`
/// it takes one cell.
#[verifier::spinoff_prover]
#[verifier::rlimit(40)]
pub proof fn a_sent_image_is_shown_where_the_command_says(
    m: KittyModel,
    controls: Seq<Control>,
    said: Said,
    data: Seq<char>,
)
    requires
        can_be_written(controls),
        say(controls, said),
        said.action == Some(seq!['T']),
        given(controls, seq!['m']) is None || given(controls, seq!['m']) == Some(seq!['0']),
        m.handled(command_with_data(controls, data)).1 is Ok,
    ensures
        said.image is Some,
        ({
            let after = m.handled(command_with_data(controls, data)).0;
            let image = said.image->0;
            &&& after.placements.contains(
                KittyPlacement {
                    image_id: image,
                    placement_id: Some(or(said.placement, m.next_placement_id)),
                    x: or(said.x, 0),
                    y: or(said.y, 0),
                    width: or(said.columns, 1),
                    height: or(said.rows, 1),
                    z_index: if said.z is Some {
                        said.z->0
                    } else {
                        0
                    },
                },
            )
            &&& after.store.images.dom().contains(image) ==> is_drawn_at(
                after,
                image,
                or(said.x, 0),
                or(said.y, 0),
                or(said.columns, 1),
                or(said.rows, 1),
            )
            &&& after.pending is None
        }),
{
    lemma_keys();
    lemma_keys_apart();
    assert(one('p') == seq!['p'] && one('t') == seq!['t'] && one('T') == seq!['T'] && one('0')
        == seq!['0'] && one('1') == seq!['1']);
    lemma_parsed(controls, data);
    lemma_controls(ParamsModel::empty(), controls);
    let q = ParamsModel::parsed(command_with_data(controls, data))->Ok_0;
    lemma_said(controls, said, ParamsModel { data: None, ..q });
    reveal(KittyModel::commanded);
    reveal(KittyModel::transferred);
    reveal(KittyModel::finished);
    reveal(KittyModel::completed);
    let start = m.expired();
    let id = q.image_id->0;
    let format = format_of(q.format, None)->Ok_0;
    let bytes = chunk_of(q.data)->Ok_0;
    let (pixels, w, h) = pixels_of(bytes, format, q.width, q.height)->Ok_0;
    let stored = start.stored(id, format, pixels, w, h);
    lemma_stored_keeps(start, id, format, pixels, w, h);
    lemma_placed(stored, id, placement_of(q));
    let after = m.handled(command_with_data(controls, data)).0;
    assert(after == stored.placed(id, placement_of(q)));
    let p = KittyPlacement {
        image_id: said.image->0,
        placement_id: Some(or(said.placement, m.next_placement_id)),
        x: or(said.x, 0),
        y: or(said.y, 0),
        width: or(said.columns, 1),
        height: or(said.rows, 1),
        z_index: if said.z is Some {
            said.z->0
        } else {
            0
        },
    };
    assert(after.placements.contains(p));
    reveal(KittyModel::placed);
    if after.store.images.dom().contains(said.image->0) {
        lemma_contained_is_drawn(after, p);
    }
}

proof fn lemma_stored_keeps(
    m: KittyModel,
    id: u32,
    format: ImageFormat,
    pixels: Seq<u8>,
    width: u32,
    height: u32,
)
    ensures
        m.stored(id, format, pixels, width, height).next_placement_id == m.next_placement_id,
        m.stored(id, format, pixels, width, height).pending == m.pending,
{
    reveal(KittyModel::stored);
    let image = ImageModel { generation: m.next_generation, format, width, height, data: pixels };
    let next = m.next_generation.wrapping_add(1);
    let untrimmed = KittyModel {
        store: m.store.stored(id, image),
        next_generation: if next == 0 {
            1
        } else {
            next
        },
        total_decoded: m.total_decoded.wrapping_add(1),
        total_bytes_processed: m.total_bytes_processed.wrapping_add(pixels.len() as u64),
        ..m
    };
    lemma_trimmed_keeps_the_next_id(untrimmed);
    lemma_trimmed_keeps_pending(untrimmed);
}

proof fn lemma_trimmed_keeps_pending(m: KittyModel)
    ensures
        m.trimmed().pending == m.pending,
    decreases m.store.order.len(),
{
    if m.store.order.len() > 0 && !m.store.within_limits() {
        lemma_trimmed_keeps_pending(m.without_oldest());
    }
}

/// Pixels sent as RGBA (`f=32`) with their size in `s` and `v` are accepted and read back:
/// the image under `i` is as wide as `s` says, as high as `v` says, and holds those pixels.
#[verifier::spinoff_prover]
#[verifier::rlimit(40)]
pub proof fn sent_pixels_are_read_back(
    m: KittyModel,
    controls: Seq<Control>,
    said: Said,
    data: Seq<char>,
    pixels: Seq<u8>,
)
    requires
        m.wf(),
        can_be_written(controls),
        forall|i: int| 0 <= i < controls.len() ==> can_be_read(#[trigger] controls[i]),
        say(controls, said),
        said.action == Some(seq!['t']) || said.action == Some(seq!['T']),
        said.image is Some,
        given(controls, seq!['f']) == Some(seq!['3', '2']),
        given(controls, seq!['m']) is None || given(controls, seq!['m']) == Some(seq!['0']),
        said.width is Some,
        said.height is Some,
        valid_dimensions(said.width->0, said.height->0),
        pixels.len() == said.width->0 * said.height->0 * 4,
        data.len() > 0,
        encode_utf8(data).len() <= MAX_KITTY_TRANSFER_BYTES * 4 / 3 + 4,
        base64_decoding(data) == Ok::<Seq<u8>, Seq<char>>(pixels),
    ensures
        m.handled(command_with_data(controls, data)).1 is Ok,
        ({
            let after = m.handled(command_with_data(controls, data)).0;
            &&& after.store.images.dom().contains(said.image->0)
            &&& after.store.images[said.image->0].data == pixels
            &&& after.store.images[said.image->0].width == said.width->0
            &&& after.store.images[said.image->0].height == said.height->0
        }),
{
    lemma_keys();
    lemma_keys_apart();
    assert(one('p') == seq!['p'] && one('t') == seq!['t'] && one('T') == seq!['T'] && one('0')
        == seq!['0'] && one('1') == seq!['1']);
    lemma_parsed(controls, data);
    lemma_controls(ParamsModel::empty(), controls);
    lemma_all_readable(ParamsModel::empty(), controls);
    let q = ParamsModel::parsed(command_with_data(controls, data))->Ok_0;
    lemma_said(controls, said, ParamsModel { data: None, ..q });
    formats_are_named(seq!['3', '2']);
    reveal(KittyModel::commanded);
    reveal(KittyModel::transferred);
    reveal(KittyModel::finished);
    reveal(KittyModel::completed);
    let start = m.expired();
    let id = q.image_id->0;
    a_sent_image_is_read_back(start, id, pixels, q.width->0, q.height->0);
    let stored = start.stored(id, ImageFormat::Rgba, pixels, q.width->0, q.height->0);
    lemma_placed(stored, id, placement_of(q));
}

/// The formats by their numbers and names: 24 and `rgb`, 32 and `rgba`, 100 and `png`,
/// `jpeg` and `jpg`, and `webp`.
pub proof fn formats_are_named(name: Seq<char>)
    ensures
        named_format(name) == Some(ImageFormat::Rgb) <==> name == seq!['2', '4'] || name == seq![
            'r',
            'g',
            'b',
        ],
        named_format(name) == Some(ImageFormat::Rgba) <==> name == seq!['3', '2'] || name == seq![
            'r',
            'g',
            'b',
            'a',
        ],
        named_format(name) == Some(ImageFormat::Png) <==> name == seq!['1', '0', '0'] || name
            == seq!['p', 'n', 'g'],
        named_format(name) == Some(ImageFormat::Jpeg) <==> name == seq!['j', 'p', 'e', 'g'] || name
            == seq!['j', 'p', 'g'],
        named_format(name) == Some(ImageFormat::Webp) <==> name == seq!['w', 'e', 'b', 'p'],
{
    reveal_strlit("24");
    reveal_strlit("rgb");
    reveal_strlit("32");
    reveal_strlit("rgba");
    reveal_strlit("100");
    reveal_strlit("png");
    reveal_strlit("jpeg");
    reveal_strlit("jpg");
    reveal_strlit("webp");
    assert("24"@ =~= seq!['2', '4']);
    assert("rgb"@ =~= seq!['r', 'g', 'b']);
    assert("32"@ =~= seq!['3', '2']);
    assert("rgba"@ =~= seq!['r', 'g', 'b', 'a']);
    assert("100"@ =~= seq!['1', '0', '0']);
    assert("png"@ =~= seq!['p', 'n', 'g']);
    assert("jpeg"@ =~= seq!['j', 'p', 'e', 'g']);
    assert("jpg"@ =~= seq!['j', 'p', 'g']);
    assert("webp"@ =~= seq!['w', 'e', 'b', 'p']);
    let known = seq![
        seq!['2', '4'],
        seq!['r', 'g', 'b'],
        seq!['3', '2'],
        seq!['r', 'g', 'b', 'a'],
        seq!['1', '0', '0'],
        seq!['p', 'n', 'g'],
        seq!['j', 'p', 'e', 'g'],
        seq!['j', 'p', 'g'],
        seq!['w', 'e', 'b', 'p'],
    ];
    assert forall|i: int, j: int| 0 <= i < 9 && 0 <= j < 9 && i != j implies #[trigger] known[i]
        != #[trigger] known[j] by {
        if known[i].len() == known[j].len() {
            assert(known[i][0] != known[j][0] || known[i][1] != known[j][1]);
        }
    }
    assert(known[0] == seq!['2', '4']);
    assert(known[1] == seq!['r', 'g', 'b']);
    assert(known[2] == seq!['3', '2']);
    assert(known[3] == seq!['r', 'g', 'b', 'a']);
    assert(known[4] == seq!['1', '0', '0']);
    assert(known[5] == seq!['p', 'n', 'g']);
    assert(known[6] == seq!['j', 'p', 'e', 'g']);
    assert(known[7] == seq!['j', 'p', 'g']);
    assert(known[8] == seq!['w', 'e', 'b', 'p']);
}

/// A deletion (`a=d`) takes away the image that it names with all that shows it, or else the
/// placement that it names: nothing else goes, and what stays keeps its order.
pub proof fn deletion_takes_what_it_names(m: KittyModel, controls: Seq<Control>, said: Said)
    requires
        m.wf(),
        can_be_written(controls),
        say(controls, said),
        said.action == Some(seq!['d']),
        m.handled(command_text(controls)).1 is Ok,
    ensures
        ({
            let after = m.handled(command_text(controls)).0;
            &&& said.image matches Some(id) ==> {
                &&& after.store.images == m.store.images.remove(id)
                &&& after.placements == m.placements.filter(|p: KittyPlacement| p.image_id != id)
            }
            &&& said.image is None ==> {
                &&& after.store == m.store
                &&& after.placements == m.placements.filter(
                    |p: KittyPlacement| p.placement_id != Some(said.placement->0),
                )
            }
        }),
{
    lemma_keys();
    lemma_keys_apart();
    assert(one('p') == seq!['p'] && one('t') == seq!['t'] && one('T') == seq!['T'] && one('d')
        == seq!['d']);
    lemma_parsed(controls, Seq::empty());
    lemma_controls(ParamsModel::empty(), controls);
    let q = ParamsModel::parsed(command_text(controls))->Ok_0;
    lemma_said(controls, said, q);
    reveal(KittyModel::commanded);
    reveal(KittyModel::deleted);
    if let Some(id) = said.image {
        lemma_filter_images(m.placements, id);
    } else {
        lemma_filter_placements(m.placements, said.placement->0);
    }
}

proof fn lemma_filter_images(placements: Seq<KittyPlacement>, id: u32)
    ensures
        without_image(placements, id) == placements.filter(
            |p: KittyPlacement| p.image_id != id,
        ),
    decreases placements.len(),
{
    reveal(Seq::filter);
    if placements.len() > 0 {
        lemma_filter_images(placements.drop_last(), id);
    }
}

proof fn lemma_filter_placements(placements: Seq<KittyPlacement>, id: u32)
    ensures
        without_placement(placements, id) == placements.filter(
            |p: KittyPlacement| p.placement_id != Some(id),
        ),
    decreases placements.len(),
{
    reveal(Seq::filter);
    if placements.len() > 0 {
        lemma_filter_placements(placements.drop_last(), id);
    }
}

proof fn lemma_inserted(placements: Seq<KittyPlacement>, p: KittyPlacement) -> (k: int)
    requires
        in_z_order(placements),
    ensures
        0 <= k < inserted_by_z(placements, p).len(),
        inserted_by_z(placements, p)[k] == p,
        forall|j: int|
            k < j < inserted_by_z(placements, p).len() ==> (#[trigger] inserted_by_z(
                placements,
                p,
            )[j]).z_index > p.z_index,
        forall|j: int|
            0 <= j < k ==> (#[trigger] inserted_by_z(placements, p)[j]).z_index <= p.z_index,
    decreases placements.len(),
{
    let all = inserted_by_z(placements, p);
    if placements.len() == 0 || placements.last().z_index <= p.z_index {
        assert forall|j: int| 0 <= j < placements.len() implies (#[trigger] all[j]).z_index
            <= p.z_index by {
            assert(placements[j].z_index <= placements[placements.len() - 1].z_index);
        }
        placements.len() as int
    } else {
        let init = placements.drop_last();
        assert(in_z_order(init));
        lemma_inserted(init, p)
    }
}

/// Images are drawn from the lowest level to the highest; a new one comes above all others
/// of its level and below those of higher ones.
pub proof fn a_new_image_comes_above_its_level(
    m: KittyModel,
    image: u32,
    request: PlacementRequest,
)
    ensures
        ({
            let after = m.placed(image, request).placements;
            &&& in_z_order(after)
            &&& exists|k: int|
                0 <= k < after.len() && (#[trigger] after[k]).image_id == image && after[k].z_index
                    == request.z && after[k].x == request.x && after[k].y == request.y && (
                forall|j: int| k < j < after.len() ==> (#[trigger] after[j]).z_index > request.z)
        }),
{
    reveal(KittyModel::placed);
    let p = KittyPlacement {
        image_id: image,
        placement_id: Some(or(request.placement_id, m.next_placement_id)),
        x: request.x,
        y: request.y,
        width: request.width,
        height: request.height,
        z_index: request.z,
    };
    let all = newest_placements(m.placements.push(p));
    sorting_orders(all);
    sorting_orders(all.drop_last());
    assert(all.last() == p);
    let after = m.placed(image, request).placements;
    assert(after == inserted_by_z(sorted_by_z(all.drop_last()), p));
    let k = lemma_inserted(sorted_by_z(all.drop_last()), p);
    assert(after[k] == p);
}

proof fn lemma_memory_front(order: Seq<u32>, images: Map<u32, ImageModel>)
    requires
        order.len() > 0,
    ensures
        memory_of(order, images) == images[order[0]].data.len() + memory_of(
            order.drop_first(),
            images,
        ),
    decreases order.len(),
{
    if order.len() == 1 {
        assert(order.drop_last() =~= Seq::empty());
        assert(order.drop_first() =~= Seq::empty());
        reveal_with_fuel(memory_of, 2);
    } else {
        lemma_memory_front(order.drop_last(), images);
        assert(order.drop_last().drop_first() =~= order.drop_first().drop_last());
        assert(order.drop_first().last() == order.last());
        assert(order.drop_last()[0] == order[0]);
    }
}

proof fn lemma_memory_without(order: Seq<u32>, images: Map<u32, ImageModel>, id: u32)
    requires
        !order.contains(id),
    ensures
        memory_of(order, images.remove(id)) == memory_of(order, images),
    decreases order.len(),
{
    if order.len() > 0 {
        let init = order.drop_last();
        assert(!init.contains(id)) by {
            if init.contains(id) {
                let k = choose|k: int| 0 <= k < init.len() && init[k] == id;
                assert(order[k] == id);
            }
        }
        lemma_memory_without(init, images, id);
        assert(order[order.len() - 1] != id);
    }
}

/// Where there are too many images, the one that was sent first goes, with all that shows
/// it, and the others stay.
pub proof fn the_oldest_image_makes_room(m: KittyModel, other: u32)
    requires
        m.store.wf(),
        m.store.order.len() == MAX_KITTY_IMAGES + 1,
        m.store.memory() <= MAX_KITTY_CACHE_BYTES,
        other != m.store.order[0],
    ensures
        ({
            let r = m.trimmed();
            let oldest = m.store.order[0];
            &&& !r.store.images.dom().contains(oldest)
            &&& r.store.order == m.store.order.drop_first()
            &&& m.store.images.dom().contains(other) ==> r.store.images.dom().contains(other)
                && r.store.images[other] == m.store.images[other]
            &&& forall|k: int|
                0 <= k < r.placements.len() ==> (#[trigger] r.placements[k]).image_id != oldest
        }),
{
    let oldest = m.store.order[0];
    let next = m.without_oldest();
    let rest = m.store.order.drop_first();
    lemma_memory_front(m.store.order, m.store.images);
    assert(!rest.contains(oldest)) by {
        if rest.contains(oldest) {
            let k = choose|k: int| 0 <= k < rest.len() && rest[k] == oldest;
            assert(m.store.order[k + 1] == m.store.order[0]);
        }
    }
    lemma_memory_without(rest, m.store.images, oldest);
    assert(next.store.within_limits());
    assert(!m.store.within_limits());
    assert(m.trimmed() == next.trimmed());
    assert(next.trimmed() == next);
    lemma_filter_images(m.placements, oldest);
    lemma_none_shown(m.placements, oldest);
}

proof fn lemma_none_shown(placements: Seq<KittyPlacement>, id: u32)
    ensures
        forall|i: int|
            0 <= i < without_image(placements, id).len() ==> (#[trigger] without_image(
                placements,
                id,
            )[i]).image_id != id,
    decreases placements.len(),
{
    if placements.len() > 0 {
        lemma_none_shown(placements.drop_last(), id);
    }
}

} // verus!
