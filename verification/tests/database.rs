use reda_db::columns::{VecCoords, VecSizes};
use reda_db::db::{read_db_models, ReadOutcome, DB};
use reda_db::geometry::{die_area_from_rectangle, Coords, DieArea, Size};
use reda_db::instances::VecInstances;
use reda_db::instances_reader::{find_negative_placement, read_instances, ParsedInstance};
use reda_db::kinds::{InstanceType, OrientType, PlacementType};
use reda_db::lefdef::{
    DbError, Def, DefComponent, DefNet, DefPin, DefPlacement, DefRow, Lef, LefMacro, LefPin, Rect,
};
use reda_db::lookup::{find_def_pin, find_lef_pin, find_macro};
use reda_db::name_index::{hash_of, NameIndex};
use reda_db::netlist::{build_netlist, pins_fit, sum_values, Net, Netlist, ParsedPin, RawPin};
use reda_db::nets_reader::{half, is_io_pin_keyword, parse_io_pin, parse_net, parse_nets, parse_node_pin};
use reda_db::numeric::Numeric;
use reda_db::units::{get_lef_def_units, get_lef_scale, get_lef_units, site_row_offset};

/// A double-precision scalar for the database.
#[derive(Clone, Copy, Debug, PartialEq)]
pub struct F(pub f64);

impl Numeric for F {
    fn zero_spec() -> Self {
        F(0.0)
    }
    fn one_spec() -> Self {
        F(1.0)
    }
    fn add_spec(self, r: Self) -> Self {
        F(self.0 + r.0)
    }
    fn sub_spec(self, r: Self) -> Self {
        F(self.0 - r.0)
    }
    fn mul_spec(self, r: Self) -> Self {
        F(self.0 * r.0)
    }
    fn div_spec(self, r: Self) -> Self {
        F(self.0 / r.0)
    }
    fn le_spec(self, r: Self) -> bool {
        self.0 <= r.0
    }
    fn from_i32_spec(v: i32) -> Self {
        F(v as f64)
    }
    fn from_usize_spec(v: usize) -> Self {
        F(v as f64)
    }
    fn trunc_i32_spec(self) -> i32 {
        self.0 as i32
    }
    fn zero() -> Self {
        F(0.0)
    }
    fn one() -> Self {
        F(1.0)
    }
    fn add(self, r: Self) -> Self {
        F(self.0 + r.0)
    }
    fn sub(self, r: Self) -> Self {
        F(self.0 - r.0)
    }
    fn mul(self, r: Self) -> Self {
        F(self.0 * r.0)
    }
    fn div(self, r: Self) -> Self {
        F(self.0 / r.0)
    }
    fn le(self, r: Self) -> bool {
        self.0 <= r.0
    }
    fn from_i32(v: i32) -> Self {
        F(v as f64)
    }
    fn from_usize(v: usize) -> Self {
        F(v as f64)
    }
    fn trunc_i32(self) -> i32 {
        self.0 as i32
    }
}

fn s(x: &str) -> String {
    x.to_string()
}

fn rect(xl: f64, yl: f64, w: f64, h: f64) -> Rect<F> {
    Rect { xl: F(xl), yl: F(yl), w: F(w), h: F(h) }
}

fn lef_pin(name: &str, bbox: Option<Rect<F>>) -> LefPin<F> {
    LefPin { name: s(name), bbox }
}

fn lef_macro(name: &str, size: Option<(f64, f64)>, is_macro: bool, pins: Vec<LefPin<F>>) -> LefMacro<F> {
    LefMacro {
        name: s(name),
        size: size.map(|(w, h)| Size::new(F(w), F(h))),
        is_macro,
        pins,
    }
}

fn comp(name: &str, model: &str, fixed: bool, at: Option<(i32, i32, OrientType)>) -> DefComponent {
    DefComponent {
        name: s(name),
        model: s(model),
        fixed,
        placement: at.map(|(x, y, orient)| DefPlacement { x, y, orient }),
    }
}

fn net(name: &str, conns: Option<Vec<(&str, &str)>>) -> DefNet {
    DefNet {
        name: s(name),
        connections: conns.map(|c| c.into_iter().map(|(i, p)| (s(i), s(p))).collect()),
    }
}

/// LEF: 1000 database units; macro `INV` (2 x 1 microns, pins A and Y),
/// macro `RAM` (a block, 4 x 4 microns, pins D0..D3).
fn sample_lef() -> Lef<F> {
    Lef {
        database_units: Some(1000),
        macros: vec![
            lef_macro(
                "INV",
                Some((2.0, 1.0)),
                false,
                vec![
                    lef_pin("A", Some(rect(0.0, 0.0, 0.5, 0.25))),
                    lef_pin("Y", Some(rect(1.0, 0.5, 0.5, 0.25))),
                ],
            ),
            lef_macro(
                "RAM",
                Some((4.0, 4.0)),
                true,
                vec![
                    lef_pin("D0", Some(rect(0.0, 0.0, 1.0, 1.0))),
                    lef_pin("D1", Some(rect(1.0, 0.0, 1.0, 1.0))),
                    lef_pin("D2", Some(rect(2.0, 0.0, 1.0, 1.0))),
                    lef_pin("D3", Some(rect(3.0, 0.0, 1.0, 1.0))),
                ],
            ),
        ],
    }
}

/// DEF: 1000 units; fixed block `r1` first, then movable inverters `u1`,
/// `u2`; I/O pin `IN` at (10, 20) with a 5 x 3 box from (-2, -1).
fn sample_def() -> Def<F> {
    Def {
        units: Some(1000),
        rows: vec![],
        components: Some(vec![
            comp("r1", "RAM", true, Some((0, 0, OrientType::N))),
            comp("u1", "INV", false, Some((100, 200, OrientType::S))),
            comp("u2", "INV", false, None),
        ]),
        pins: vec![DefPin {
            name: s("IN"),
            placement: Some(DefPlacement { x: 10, y: 20, orient: OrientType::N }),
            bbox: Some(rect(-2.0, -1.0, 5.0, 3.0)),
        }],
        nets: Some(vec![
            net("n3", Some(vec![("PIN", "IN"), ("u1", "A"), ("r1", "D0")])),
            net("n2", Some(vec![("u1", "Y"), ("u2", "A")])),
            net("n1", Some(vec![("u2", "Y")])),
            net("n4", Some(vec![("r1", "D1"), ("r1", "D2"), ("u1", "A"), ("u2", "A")])),
            net("empty", None),
        ]),
    }
}

fn sample_die() -> DieArea<F> {
    DieArea::new(None, Size::new(F(10000.0), F(10000.0)), Size::new(F(10000.0), F(10000.0)), Coords::new(F(0.0), F(0.0)))
}

// ---------------------------------------------------------------- basics

#[test]
fn coords_and_size_keep_their_values() {
    let c = Coords::new(F(1.5), F(-2.0));
    assert_eq!((c.x, c.y), (F(1.5), F(-2.0)));
    let z = Size::new(F(3.0), F(4.0));
    assert_eq!((z.width, z.height), (F(3.0), F(4.0)));
}

#[test]
fn vec_coords_push_len_and_iter() {
    let mut v: VecCoords<F> = VecCoords::new(vec![], vec![]);
    assert!(v.is_empty());
    v.push(F(1.0), F(2.0));
    v.push(F(3.0), F(4.0));
    assert_eq!(v.len(), 2);
    assert!(!v.is_empty());
    let mut it = v.iter();
    assert_eq!(it.size_hint(), (2, Some(2)));
    assert_eq!(it.next(), Some((&F(1.0), &F(2.0))));
    assert_eq!(it.size_hint(), (1, Some(1)));
    assert_eq!(it.next(), Some((&F(3.0), &F(4.0))));
    assert_eq!(it.next(), None);
    assert_eq!(it.next(), None);
    assert_eq!(it.size_hint(), (0, Some(0)));
}

#[test]
fn vec_coords_new_zero_is_all_origin() {
    let v: VecCoords<F> = VecCoords::new_zero(3);
    assert_eq!(v.x, vec![F(0.0); 3]);
    assert_eq!(v.y, vec![F(0.0); 3]);
    let e: VecCoords<F> = VecCoords::new_zero(0);
    assert!(e.is_empty());
}

#[test]
fn vec_coords_iter_mut_changes_points() {
    let mut v: VecCoords<F> = VecCoords::new(vec![F(1.0), F(2.0)], vec![F(10.0), F(20.0)]);
    {
        let mut it = v.iter_mut();
        assert_eq!(it.size_hint(), (2, Some(2)));
        while let Some((x, y)) = it.next() {
            *x = x.add(F(1.0));
            *y = y.mul(F(2.0));
        }
        assert_eq!(it.size_hint(), (0, Some(0)));
    }
    assert_eq!(v.x, vec![F(2.0), F(3.0)]);
    assert_eq!(v.y, vec![F(20.0), F(40.0)]);
}

#[test]
fn vec_sizes_push_len_iter_and_iter_mut() {
    let mut v: VecSizes<i32> = VecSizes::new(vec![1], vec![2]);
    v.push(3, 4);
    assert_eq!(v.len(), 2);
    assert!(!v.is_empty());
    let mut it = v.iter();
    assert_eq!(it.next(), Some((&1, &2)));
    assert_eq!(it.next(), Some((&3, &4)));
    assert_eq!(it.next(), None);
    {
        let mut m = v.iter_mut();
        if let Some((w, h)) = m.next() {
            *w = 7;
            *h = 8;
        }
        assert_eq!(m.size_hint(), (1, Some(1)));
    }
    assert_eq!(v.w, vec![7, 3]);
    assert_eq!(v.h, vec![8, 4]);
    let e: VecSizes<i32> = VecSizes::new(vec![], vec![]);
    assert!(e.is_empty());
}

#[test]
fn die_area_getters_area_and_full_size() {
    let mut d = DieArea::new(
        Some(s("core")),
        Size::new(F(2.0), F(3.0)),
        Size::new(F(5.0), F(7.0)),
        Coords::new(F(1.0), F(1.0)),
    );
    assert_eq!(d.width(), F(2.0));
    assert_eq!(d.height(), F(3.0));
    assert_eq!(d.full_width(), F(5.0));
    assert_eq!(d.full_height(), F(7.0));
    assert_eq!(d.area(), F(6.0));
    d.use_full_size();
    assert_eq!(d.width(), d.full_width());
    assert_eq!(d.height(), d.full_height());
    assert_eq!(d.area(), F(35.0));
    assert_eq!(d.site_name, Some(s("core")));
}

#[test]
fn kinds_predicates_and_defaults() {
    assert!(InstanceType::MACRO.is_macro());
    assert!(!InstanceType::STDCELL.is_macro());
    assert!(InstanceType::TERMINAL.is_terminal());
    assert!(!InstanceType::MACRO.is_terminal());
    assert!(PlacementType::MOVABLE.is_movable());
    assert!(!PlacementType::FIXED.is_movable());
    assert_eq!(InstanceType::default(), InstanceType::STDCELL);
    assert_eq!(PlacementType::default(), PlacementType::MOVABLE);
    assert_eq!(OrientType::default(), OrientType::N);
    for o in [OrientType::E, OrientType::W, OrientType::FE, OrientType::FW] {
        assert!(o.is_rotated());
    }
    for o in [OrientType::N, OrientType::S, OrientType::FN, OrientType::FS] {
        assert!(!o.is_rotated());
    }
}

#[test]
fn vec_instances_push_returns_index_and_area() {
    let mut v: VecInstances<F> = VecInstances::default();
    assert!(v.is_empty());
    let a = v.push(F(0.0), F(0.0), F(2.0), F(3.0), InstanceType::MACRO, PlacementType::FIXED, OrientType::N, F(4.0));
    let b = v.push(F(1.0), F(1.0), F(0.5), F(4.0), InstanceType::STDCELL, PlacementType::MOVABLE, OrientType::S, F(2.0));
    let c = v.push(F(1.0), F(1.0), F(1.0), F(1.0), InstanceType::TERMINAL, PlacementType::FIXED, OrientType::E, F(1.0));
    assert_eq!((a, b, c), (0, 1, 2));
    assert_eq!(v.len(), 3);
    assert_eq!(v.areas, vec![F(6.0), F(2.0), F(1.0)]);
    assert!(v.is_macro(0) && !v.is_macro(1) && !v.is_macro(2));
    assert!(!v.is_movable(0) && v.is_movable(1) && !v.is_movable(2));
    assert!(!v.is_terminal(0) && !v.is_terminal(1) && v.is_terminal(2));
    // out of range: false
    assert!(!v.is_movable(3) && !v.is_macro(3) && !v.is_terminal(99));
}

#[test]
fn vec_instances_k_pushes_give_length_k() {
    for k in 0..6usize {
        let mut v: VecInstances<F> = VecInstances::default();
        for i in 0..k {
            let x = F(i as f64);
            v.push(x, x, F(1.0), F(2.0), InstanceType::STDCELL, PlacementType::MOVABLE, OrientType::N, F(1.0));
        }
        assert_eq!(v.len(), k);
        assert_eq!(v.is_empty(), k == 0);
        assert_eq!(v.areas.len(), k);
        assert_eq!(v.num_pins.len(), k);
    }
}

#[test]
fn vec_instances_new_keeps_columns() {
    let v = VecInstances::new(
        VecCoords::new(vec![F(1.0)], vec![F(2.0)]),
        VecSizes::new(vec![F(3.0)], vec![F(4.0)]),
        vec![InstanceType::STDCELL],
        vec![PlacementType::MOVABLE],
        vec![OrientType::FN],
        vec![F(12.0)],
        vec![F(2.0)],
    );
    assert_eq!(v.len(), 1);
    assert!(v.is_movable(0));
    assert_eq!(v.o_types, vec![OrientType::FN]);
    let e: VecInstances<F> = VecInstances::empty();
    assert_eq!(e.len(), 0);
}

#[test]
fn netlist_parts_keep_their_values() {
    let p = ParsedPin::new(3, 1, Coords::new(F(0.5), F(0.25)), Size::new(F(1.0), F(2.0)));
    assert_eq!((p.pin_id, p.macro_id, p.offset.x, p.size.height), (3, 1, F(0.5), F(2.0)));
    let n = Net::new(vec![0, 1]);
    assert_eq!(n.pin_ids, vec![0, 1]);
    let nl: Netlist<F> = Netlist::new(vec![], VecCoords::new(vec![], vec![]), vec![], vec![vec![]], vec![n], 1, 0, 0);
    assert_eq!(nl.nets.len(), 1);
    assert_eq!(nl.macro_2_pins.len(), 1);
    assert_eq!((nl.n_2nets, nl.n_3nets, nl.n_nnets), (1, 0, 0));
}

#[test]
fn parsed_instance_update_id() {
    let mut p = ParsedInstance::new(
        0,
        s("u1"),
        s("INV"),
        InstanceType::STDCELL,
        PlacementType::MOVABLE,
        OrientType::N,
        Coords::new(F(1.0), F(2.0)),
        Coords::new(F(0.0), F(0.0)),
        Size::new(F(1.0), F(1.0)),
    );
    p.update_id(7);
    assert_eq!(p.id, 7);
    assert_eq!(p.name, s("u1"));
}

// ---------------------------------------------------------------- units

#[test]
fn units_and_scales() {
    let lef = sample_lef();
    let def = sample_def();
    assert_eq!(get_lef_units(&lef), Ok(1000));
    let mut def2 = sample_def();
    def2.units = Some(2000);
    assert_eq!(get_lef_def_units(&lef, &def2), Ok(F(0.5)));
    assert_eq!(get_lef_def_units(&lef, &def), Ok(F(1.0)));
    assert_eq!(get_lef_scale(&lef, F(0.5)), Ok(F(500.0)));
}

#[test]
fn units_errors() {
    let mut lef = sample_lef();
    let mut def = sample_def();
    def.units = None;
    assert_eq!(get_lef_def_units(&lef, &def), Err(DbError::MissingDefUnits));
    lef.database_units = None;
    assert_eq!(get_lef_units(&lef), Err(DbError::MissingLefUnits));
    // the LEF units are looked at first
    assert_eq!(get_lef_def_units(&lef, &def), Err(DbError::MissingLefUnits));
    assert_eq!(get_lef_scale(&lef, F(1.0)), Err(DbError::MissingLefUnits));
}

#[test]
fn site_row_offset_takes_least_corner_of_the_site() {
    let rows = vec![
        DefRow { site: s("core"), x: 50, y: 30 },
        DefRow { site: s("io"), x: -10, y: -10 },
        DefRow { site: s("core"), x: 20, y: 40 },
    ];
    assert_eq!(site_row_offset(&rows, &s("core")), Some((20, 30)));
    assert_eq!(site_row_offset(&rows, &s("io")), Some((-10, -10)));
    assert_eq!(site_row_offset(&rows, &s("none")), None);
    assert_eq!(site_row_offset(&vec![], &s("core")), None);
}

// ---------------------------------------------------------------- lookups

#[test]
fn lookups_take_last_macro_and_first_pin() {
    let macros = vec![
        lef_macro("A", Some((1.0, 1.0)), false, vec![]),
        lef_macro("B", None, false, vec![]),
        lef_macro("A", Some((2.0, 2.0)), false, vec![]),
    ];
    assert_eq!(find_macro(&NameIndex::build(&macros), &macros, &s("A")), Some(2));
    assert_eq!(find_macro(&NameIndex::build(&macros), &macros, &s("B")), Some(1));
    assert_eq!(find_macro(&NameIndex::build(&macros), &macros, &s("C")), None);
    let pins = vec![lef_pin("P", None), lef_pin("Q", None), lef_pin("P", None)];
    assert_eq!(find_lef_pin(&pins, &s("P")), Some(0));
    assert_eq!(find_lef_pin(&pins, &s("Q")), Some(1));
    assert_eq!(find_lef_pin(&pins, &s("R")), None);
    let dpins: Vec<DefPin<F>> = vec![
        DefPin { name: s("X"), placement: None, bbox: None },
        DefPin { name: s("X"), placement: None, bbox: None },
    ];
    assert_eq!(find_def_pin(&NameIndex::build(&dpins), &dpins, &s("X")), Some(1));
    assert_eq!(find_def_pin(&NameIndex::build(&dpins), &dpins, &s("Y")), None);
}

#[test]
fn name_index_finds_the_last_of_each_name() {
    let macros = vec![
        lef_macro("A", None, false, vec![]),
        lef_macro("BB", None, false, vec![]),
        lef_macro("A", None, false, vec![]),
        lef_macro("\u{c4}B", None, false, vec![]),
    ];
    let index = NameIndex::build(&macros);
    assert_eq!(index.find_last(&macros, &s("A")), Some(2));
    assert_eq!(index.find_last(&macros, &s("BB")), Some(1));
    assert_eq!(index.find_last(&macros, &s("\u{c4}B")), Some(3));
    assert_eq!(index.find_last(&macros, &s("")), None);
    assert_eq!(index.find_last(&macros, &s("B")), None);
    let empty: Vec<LefMacro<F>> = vec![];
    assert_eq!(NameIndex::build(&empty).find_last(&empty, &s("A")), None);
}

#[test]
fn name_hash_values() {
    assert_eq!(hash_of(&s("")), 0);
    assert_eq!(hash_of(&s("A")), 65);
    // (65 * 31 + 66)
    assert_eq!(hash_of(&s("AB")), 2081);
    // bytes of "\u{e9}" are 0xC3 0xA9: 195 * 31 + 169
    assert_eq!(hash_of(&s("\u{e9}")), 6214);
}

#[test]
fn io_pin_keyword_and_half() {
    assert!(is_io_pin_keyword(&s("PIN")));
    assert!(!is_io_pin_keyword(&s("PIN1")));
    assert!(!is_io_pin_keyword(&s("pin")));
    assert!(!is_io_pin_keyword(&s("")));
    assert_eq!(half(5), 2);
    assert_eq!(half(-5), -2);
    assert_eq!(half(4), 2);
    assert_eq!(half(0), 0);
}

// ---------------------------------------------------------------- instances

#[test]
fn read_instances_puts_movable_first_and_numbers_them() {
    let lef = sample_lef();
    let def = sample_def();
    let (parsed, inst) = read_instances(&lef, &def, F(0.5), &sample_die()).unwrap();
    let names: Vec<&str> = parsed.iter().map(|p| p.name.as_str()).collect();
    assert_eq!(names, vec!["u1", "u2", "r1"]);
    let ids: Vec<usize> = parsed.iter().map(|p| p.id).collect();
    assert_eq!(ids, vec![0, 1, 2]);
    assert_eq!(inst.len(), 3);
    // u1 at (100, 200) DEF units, scale 0.5
    assert_eq!((inst.coords.x[0], inst.coords.y[0]), (F(50.0), F(100.0)));
    // u2 not placed: at the origin
    assert_eq!((inst.coords.x[1], inst.coords.y[1]), (F(0.0), F(0.0)));
    // sizes: microns * 1000 * 0.5
    assert_eq!((inst.sizes.w[0], inst.sizes.h[0]), (F(1000.0), F(500.0)));
    assert_eq!((inst.sizes.w[2], inst.sizes.h[2]), (F(2000.0), F(2000.0)));
    assert_eq!(inst.areas, vec![F(500000.0), F(500000.0), F(4000000.0)]);
    assert_eq!(inst.num_pins, vec![F(2.0), F(2.0), F(4.0)]);
    assert_eq!(inst.types, vec![InstanceType::STDCELL, InstanceType::STDCELL, InstanceType::MACRO]);
    assert_eq!(inst.pl_types, vec![PlacementType::MOVABLE, PlacementType::MOVABLE, PlacementType::FIXED]);
    assert_eq!(inst.o_types, vec![OrientType::S, OrientType::N, OrientType::N]);
    assert_eq!(parsed[0].model, s("INV"));
    assert_eq!(parsed[2].size.width, F(2000.0));
    assert_eq!(parsed[0].offset.x, F(0.0));
}

#[test]
fn read_instances_without_components_is_empty() {
    let lef = sample_lef();
    let mut def = sample_def();
    def.components = None;
    let (parsed, inst) = read_instances(&lef, &def, F(0.5), &sample_die()).unwrap();
    assert!(parsed.is_empty());
    assert!(inst.is_empty());
}

#[test]
fn read_instances_errors() {
    let lef = sample_lef();
    let mut def = sample_def();
    def.components = Some(vec![comp("x", "NAND", false, None), comp("y", "INV", false, Some((-5, 0, OrientType::N)))]);
    // the error comes before the negative coordinate
    assert_eq!(find_negative_placement(&lef, &def, F(0.5)), None);
    assert_eq!(read_instances(&lef, &def, F(0.5), &sample_die()).unwrap_err(), DbError::ModelNotFound(s("NAND")));
    let mut lef2 = sample_lef();
    lef2.macros.push(lef_macro("NOSIZE", None, false, vec![]));
    def.components = Some(vec![comp("z", "NOSIZE", false, None)]);
    assert_eq!(read_instances(&lef2, &def, F(0.5), &sample_die()).unwrap_err(), DbError::SizeNotFound);
    let mut def3 = sample_def();
    def3.units = None;
    assert_eq!(read_instances(&lef, &def3, F(0.5), &sample_die()).unwrap_err(), DbError::MissingDefUnits);
}

#[test]
fn negative_placement_is_found() {
    let lef = sample_lef();
    let mut def = sample_def();
    def.components = Some(vec![
        comp("a", "INV", false, Some((1, 1, OrientType::N))),
        comp("b", "INV", true, Some((3, -1, OrientType::N))),
        comp("c", "NAND", false, None),
    ]);
    assert_eq!(find_negative_placement(&lef, &def, F(0.5)), Some(1));
    assert_eq!(find_negative_placement(&lef, &sample_def(), F(0.5)), None);
}

// ---------------------------------------------------------------- pins

#[test]
fn io_pin_becomes_a_terminal() {
    let def = sample_def();
    let mut inst: VecInstances<F> = VecInstances::default();
    inst.push(F(0.0), F(0.0), F(1.0), F(1.0), InstanceType::STDCELL, PlacementType::MOVABLE, OrientType::N, F(1.0));
    let (id, coords, size) = parse_io_pin(&def, &NameIndex::build(&def.pins), &s("IN"), F(1.0), F(0.5), &mut inst).unwrap();
    assert_eq!(id, 1);
    // half sizes rounded toward zero: 5 / 2 = 2, 3 / 2 = 1
    assert_eq!((coords.x, coords.y), (F(1.0), F(0.5)));
    assert_eq!((size.width, size.height), (F(2.5), F(1.5)));
    assert_eq!(inst.len(), 2);
    // at (10, 20) plus the box corner (-2, -1), scaled by 0.5
    assert_eq!((inst.coords.x[1], inst.coords.y[1]), (F(4.0), F(9.5)));
    assert!(inst.is_terminal(1));
    assert!(!inst.is_movable(1));
    assert_eq!(inst.num_pins[1], F(1.0));
    assert_eq!(inst.areas[1], F(3.75));
}

#[test]
fn io_pin_turned_swaps_its_offset() {
    let mut def = sample_def();
    def.pins[0].placement = Some(DefPlacement { x: 10, y: 20, orient: OrientType::FW });
    let mut inst: VecInstances<F> = VecInstances::default();
    let (id, coords, _) = parse_io_pin(&def, &NameIndex::build(&def.pins), &s("IN"), F(1.0), F(0.5), &mut inst).unwrap();
    assert_eq!(id, 0);
    assert_eq!((coords.x, coords.y), (F(0.5), F(1.0)));
    assert_eq!(inst.o_types, vec![OrientType::FW]);
}

#[test]
fn io_pin_errors_leave_instances_alone() {
    let mut def = sample_def();
    let mut inst: VecInstances<F> = VecInstances::default();
    assert_eq!(parse_io_pin(&def, &NameIndex::build(&def.pins), &s("OUT"), F(1.0), F(1.0), &mut inst).unwrap_err(), DbError::IoPinNotFound(s("OUT")));
    def.pins[0].bbox = None;
    assert_eq!(parse_io_pin(&def, &NameIndex::build(&def.pins), &s("IN"), F(1.0), F(1.0), &mut inst).unwrap_err(), DbError::NoPinShape(s("IN")));
    def.pins[0].placement = None;
    assert_eq!(parse_io_pin(&def, &NameIndex::build(&def.pins), &s("IN"), F(1.0), F(1.0), &mut inst).unwrap_err(), DbError::PlacementNotFound(s("IN")));
    assert!(inst.is_empty());
}

fn sample_parsed() -> Vec<ParsedInstance<F>> {
    let (parsed, _) = read_instances(&sample_lef(), &sample_def(), F(0.5), &sample_die()).unwrap();
    parsed
}

#[test]
fn node_pin_sits_at_the_middle_of_its_box() {
    let lef = sample_lef();
    let parsed = sample_parsed();
    let (id, coords, size) = parse_node_pin(&lef, &NameIndex::build(&lef.macros), &parsed, &NameIndex::build(&parsed), &s("Y"), &s("u1"), F(1.0), F(500.0)).unwrap();
    assert_eq!(id, 0);
    assert_eq!((coords.x, coords.y), (F(625.0), F(312.5)));
    assert_eq!((size.width, size.height), (F(250.0), F(125.0)));
    let (id, coords, _) = parse_node_pin(&lef, &NameIndex::build(&lef.macros), &parsed, &NameIndex::build(&parsed), &s("D1"), &s("r1"), F(1.0), F(500.0)).unwrap();
    assert_eq!(id, 2);
    assert_eq!((coords.x, coords.y), (F(750.0), F(250.0)));
}

#[test]
fn node_pin_errors() {
    let mut lef = sample_lef();
    let parsed = sample_parsed();
    assert_eq!(
        parse_node_pin(&lef, &NameIndex::build(&lef.macros), &parsed, &NameIndex::build(&parsed), &s("A"), &s("u9"), F(1.0), F(1.0)).unwrap_err(),
        DbError::InstanceNotFound(s("u9"))
    );
    assert_eq!(
        parse_node_pin(&lef, &NameIndex::build(&lef.macros), &parsed, &NameIndex::build(&parsed), &s("Z"), &s("u1"), F(1.0), F(1.0)).unwrap_err(),
        DbError::PinNotFound { pin: s("Z"), model: s("INV") }
    );
    lef.macros[0].pins[0].bbox = None;
    assert_eq!(parse_node_pin(&lef, &NameIndex::build(&lef.macros), &parsed, &NameIndex::build(&parsed), &s("A"), &s("u1"), F(1.0), F(1.0)).unwrap_err(), DbError::NoPinShape(s("A")));
    lef.macros.remove(0);
    assert_eq!(
        parse_node_pin(&lef, &NameIndex::build(&lef.macros), &parsed, &NameIndex::build(&parsed), &s("A"), &s("u1"), F(1.0), F(1.0)).unwrap_err(),
        DbError::ModelNotFound(s("INV"))
    );
}

// ---------------------------------------------------------------- nets

#[test]
fn parse_net_files_by_size_and_drops_short_nets() {
    let lef = sample_lef();
    let def = sample_def();
    let parsed = sample_parsed();
    let (_, mut inst) = read_instances(&lef, &def, F(0.5), &sample_die()).unwrap();
    let mut t2: Vec<Vec<RawPin<F>>> = vec![];
    let mut t3: Vec<Vec<RawPin<F>>> = vec![];
    let mut tn: Vec<Vec<RawPin<F>>> = vec![];
    for n in def.nets.as_ref().unwrap() {
        parse_net(&lef, &NameIndex::build(&lef.macros), &def, &NameIndex::build(&def.pins), &parsed, &NameIndex::build(&parsed), n, F(1.0), F(0.5), F(500.0), &mut inst, &mut t2, &mut t3, &mut tn).unwrap();
    }
    assert_eq!(t2.len(), 1);
    assert_eq!(t3.len(), 1);
    assert_eq!(tn.len(), 1);
    assert_eq!(t3[0].iter().map(|p| p.0).collect::<Vec<_>>(), vec![3, 0, 2]);
    // one terminal for the I/O pin
    assert_eq!(inst.len(), 4);
    // a net with one pin gives nothing; one without connections neither
    let lonely = net("lonely", Some(vec![("PIN", "IN")]));
    parse_net(&lef, &NameIndex::build(&lef.macros), &def, &NameIndex::build(&def.pins), &parsed, &NameIndex::build(&parsed), &lonely, F(1.0), F(0.5), F(500.0), &mut inst, &mut t2, &mut t3, &mut tn).unwrap();
    assert_eq!((t2.len(), t3.len(), tn.len()), (1, 1, 1));
    // ... but its I/O pin still became a terminal
    assert_eq!(inst.len(), 5);
}

#[test]
fn parse_net_error_keeps_earlier_terminals() {
    let lef = sample_lef();
    let def = sample_def();
    let parsed = sample_parsed();
    let (_, mut inst) = read_instances(&lef, &def, F(0.5), &sample_die()).unwrap();
    let mut t2: Vec<Vec<RawPin<F>>> = vec![];
    let mut t3: Vec<Vec<RawPin<F>>> = vec![];
    let mut tn: Vec<Vec<RawPin<F>>> = vec![];
    let bad = net("bad", Some(vec![("PIN", "IN"), ("nobody", "A")]));
    let r = parse_net(&lef, &NameIndex::build(&lef.macros), &def, &NameIndex::build(&def.pins), &parsed, &NameIndex::build(&parsed), &bad, F(1.0), F(0.5), F(500.0), &mut inst, &mut t2, &mut t3, &mut tn);
    assert_eq!(r, Err(DbError::InstanceNotFound(s("nobody"))));
    assert_eq!(inst.len(), 4);
    assert!(t2.is_empty() && t3.is_empty() && tn.is_empty());
}

#[test]
fn parse_nets_reads_all_nets() {
    let lef = sample_lef();
    let def = sample_def();
    let parsed = sample_parsed();
    let (_, mut inst) = read_instances(&lef, &def, F(0.5), &sample_die()).unwrap();
    let (t2, t3, tn) = parse_nets(&lef, &def, &parsed, &mut inst, F(0.5)).unwrap();
    assert_eq!((t2.len(), t3.len(), tn.len()), (1, 1, 1));
    assert_eq!(tn[0].len(), 4);
    let mut def2 = sample_def();
    def2.nets = None;
    let (_, mut inst2) = read_instances(&lef, &def2, F(0.5), &sample_die()).unwrap();
    let (a, b, c) = parse_nets(&lef, &def2, &parsed, &mut inst2, F(0.5)).unwrap();
    assert!(a.is_empty() && b.is_empty() && c.is_empty());
}

fn raw(m: usize) -> RawPin<F> {
    (m, Coords::new(F(m as f64), F(0.0)), Size::new(F(1.0), F(1.0)))
}

#[test]
fn build_netlist_numbers_pins_two_three_then_more() {
    let t2 = vec![vec![raw(0), raw(1)]];
    let t3 = vec![vec![raw(2), raw(0), raw(1)]];
    let tn = vec![vec![raw(1), raw(1), raw(2), raw(0)]];
    let nl = build_netlist(t2, t3, tn, 4);
    assert_eq!(nl.pin_2_macro, vec![0, 1, 2, 0, 1, 1, 1, 2, 0]);
    assert_eq!(nl.macro_2_pins, vec![vec![0, 3, 8], vec![1, 4, 5, 6], vec![2, 7], vec![]]);
    let nets: Vec<Vec<usize>> = nl.nets.iter().map(|n| n.pin_ids.clone()).collect();
    assert_eq!(nets, vec![vec![0, 1], vec![2, 3, 4], vec![5, 6, 7, 8]]);
    assert_eq!((nl.n_2nets, nl.n_3nets, nl.n_nnets), (1, 1, 1));
    assert_eq!(nl.parsed_pins.len(), 9);
    assert_eq!(nl.parsed_pins[4].pin_id, 4);
    assert_eq!(nl.parsed_pins[4].macro_id, 1);
    assert_eq!(nl.pins.x[2], F(2.0));
    assert_eq!(nl.pins.len(), 9);
}

#[test]
fn pins_fit_compares_with_sum_of_instance_pins() {
    assert_eq!(sum_values(&vec![F(1.0), F(2.0), F(4.0)]), F(7.0));
    assert_eq!(sum_values::<F>(&vec![]), F(0.0));
    assert!(pins_fit(7, &vec![F(1.0), F(2.0), F(4.0)]));
    assert!(!pins_fit(8, &vec![F(1.0), F(2.0), F(4.0)]));
    assert!(pins_fit::<F>(0, &vec![]));
}

// ---------------------------------------------------------------- database

#[test]
fn db_new_counts_and_sums() {
    let mut inst: VecInstances<F> = VecInstances::default();
    inst.push(F(0.0), F(0.0), F(2.0), F(2.0), InstanceType::STDCELL, PlacementType::MOVABLE, OrientType::N, F(2.0));
    inst.push(F(0.0), F(0.0), F(1.0), F(3.0), InstanceType::MACRO, PlacementType::MOVABLE, OrientType::N, F(2.0));
    inst.push(F(0.0), F(0.0), F(5.0), F(2.0), InstanceType::MACRO, PlacementType::FIXED, OrientType::N, F(2.0));
    inst.push(F(0.0), F(0.0), F(1.0), F(1.0), InstanceType::TERMINAL, PlacementType::FIXED, OrientType::N, F(1.0));
    let die = DieArea::new(None, Size::new(F(10.0), F(10.0)), Size::new(F(10.0), F(10.0)), Coords::new(F(0.0), F(0.0)));
    let nl: Netlist<F> = Netlist::new(vec![], VecCoords::new(vec![], vec![]), vec![], vec![], vec![Net::new(vec![0, 1])], 1, 0, 0);
    let db = DB::new(die, inst, nl);
    assert_eq!((db.num_movable, db.num_fixed, db.num_terminal, db.num_macro), (2, 2, 1, 2));
    assert_eq!(db.movable_area, F(7.0));
    assert_eq!(db.fixed_area, F(11.0));
    assert_eq!(db.cell_utilization, F(7.0 / 89.0));
    assert_eq!(db.net_shares(), (100, 0, 0));
}

#[test]
fn read_db_models_reads_the_sample() {
    let lef = sample_lef();
    let def = sample_def();
    let db = match read_db_models(&lef, &def, F(0.5), sample_die()) {
        ReadOutcome::Read(db) => db,
        _ => panic!("expected a database"),
    };
    assert_eq!(db.instances.len(), 4);
    assert_eq!((db.num_movable, db.num_fixed, db.num_terminal, db.num_macro), (2, 2, 1, 1));
    assert_eq!(db.movable_area, F(1000000.0));
    assert_eq!(db.fixed_area, F(4000003.75));
    assert_eq!(db.cell_utilization, F(1000000.0 / (100000000.0 - 4000003.75)));
    let nl = &db.netlist;
    assert_eq!(nl.pin_2_macro, vec![0, 1, 3, 0, 2, 2, 2, 0, 1]);
    assert_eq!(nl.macro_2_pins, vec![vec![0, 3, 7], vec![1, 8], vec![4, 5, 6], vec![2]]);
    let nets: Vec<Vec<usize>> = nl.nets.iter().map(|n| n.pin_ids.clone()).collect();
    assert_eq!(nets, vec![vec![0, 1], vec![2, 3, 4], vec![5, 6, 7, 8]]);
    assert_eq!((nl.n_2nets, nl.n_3nets, nl.n_nnets), (1, 1, 1));
    // the pin of net n3 on the I/O pin
    assert_eq!((nl.pins.x[2], nl.pins.y[2]), (F(1.0), F(0.5)));
    // pin u1.Y
    assert_eq!((nl.pins.x[0], nl.pins.y[0]), (F(625.0), F(312.5)));
    assert_eq!(db.net_shares(), (33, 33, 33));
}

#[test]
fn read_db_models_reports_too_many_pins() {
    let mut lef = sample_lef();
    lef.macros[1].pins.pop();
    // RAM now declares 3 pins: 8 pins in all for 9 pins in nets
    match read_db_models(&lef, &sample_def(), F(0.5), sample_die()) {
        ReadOutcome::TooManyPins(n, total) => {
            assert_eq!(n, 9);
            assert_eq!(total, F(8.0));
        }
        _ => panic!("expected too many pins"),
    }
}

#[test]
fn read_db_models_reports_negative_placement_and_errors() {
    let lef = sample_lef();
    let mut def = sample_def();
    def.components.as_mut().unwrap()[2].placement = Some(DefPlacement { x: 0, y: -4, orient: OrientType::N });
    match read_db_models(&lef, &def, F(0.5), sample_die()) {
        ReadOutcome::NegativePlacement(i) => assert_eq!(i, 2),
        _ => panic!("expected a negative placement"),
    }
    let mut def2 = sample_def();
    def2.nets.as_mut().unwrap().push(net("bad", Some(vec![("PIN", "OUT")])));
    match read_db_models(&lef, &def2, F(0.5), sample_die()) {
        ReadOutcome::Failed(e) => assert_eq!(e, DbError::IoPinNotFound(s("OUT"))),
        _ => panic!("expected an error"),
    }
    let mut lef3 = sample_lef();
    lef3.database_units = None;
    match read_db_models(&lef3, &sample_def(), F(0.5), sample_die()) {
        ReadOutcome::Failed(e) => assert_eq!(e, DbError::MissingLefUnits),
        _ => panic!("expected an error"),
    }
}

// ---------------------------------------------------------------- laws on values

#[test]
fn read_db_movable_first_terminals_last() {
    let db = match read_db_models(&sample_lef(), &sample_def(), F(0.5), sample_die()) {
        ReadOutcome::Read(db) => db,
        _ => panic!("expected a database"),
    };
    let n = db.instances.len();
    for j in 0..n {
        assert_eq!(db.instances.is_movable(j), j < db.num_movable);
        assert_eq!(db.instances.is_terminal(j), j >= n - db.num_terminal);
    }
    assert_eq!(db.num_movable + db.num_fixed, n);
}

#[test]
fn read_db_pins_and_instances_agree() {
    let db = match read_db_models(&sample_lef(), &sample_def(), F(0.5), sample_die()) {
        ReadOutcome::Read(db) => db,
        _ => panic!("expected a database"),
    };
    let nl = &db.netlist;
    for (p, &m) in nl.pin_2_macro.iter().enumerate() {
        assert!(m < db.instances.len());
        assert!(nl.macro_2_pins[m].contains(&p));
        assert_eq!(nl.parsed_pins[p].pin_id, p);
    }
    for (m, pins) in nl.macro_2_pins.iter().enumerate() {
        for w in pins.windows(2) {
            assert!(w[0] < w[1]);
        }
        for &p in pins {
            assert_eq!(nl.pin_2_macro[p], m);
        }
    }
    for (k, net) in nl.nets.iter().enumerate() {
        let expected = if k < nl.n_2nets { 2 } else if k < nl.n_2nets + nl.n_3nets { 3 } else { 4 };
        assert_eq!(net.pin_ids.len(), expected);
    }
}

#[test]
fn read_db_one_instance_per_component_and_io_connection() {
    let mut def = sample_def();
    def.components.as_mut().unwrap().push(comp("r2", "RAM", true, Some((8, 8, OrientType::E))));
    def.nets.as_mut().unwrap().push(net("io2", Some(vec![("PIN", "IN"), ("PIN", "IN"), ("r2", "D0")])));
    let mut lef = sample_lef();
    lef.macros[1].pins.push(lef_pin("D4", Some(rect(0.0, 0.0, 1.0, 1.0))));
    let db = match read_db_models(&lef, &def, F(0.5), sample_die()) {
        ReadOutcome::Read(db) => db,
        _ => panic!("expected a database"),
    };
    // 4 components, 3 connections to I/O pins
    assert_eq!(db.instances.len(), 7);
    assert_eq!(db.num_terminal, 3);
    assert_eq!(db.num_movable, 2);
    assert_eq!(db.num_fixed, 5);
    assert_eq!(db.netlist.n_3nets, 2);
}

#[test]
fn die_area_from_rectangle_scales_and_picks_size() {
    let d = die_area_from_rectangle(
        Some(s("core")),
        F(80.0),
        F(60.0),
        F(100.0),
        F(70.0),
        Coords::new(F(10.0), F(5.0)),
        F(2.0),
        F(0.5),
        false,
    );
    assert_eq!((d.width(), d.height()), (F(80.0), F(60.0)));
    assert_eq!((d.full_width(), d.full_height()), (F(100.0), F(70.0)));
    assert_eq!((d.offset.x, d.offset.y), (F(10.0), F(5.0)));
    let full = die_area_from_rectangle(None, F(80.0), F(60.0), F(100.0), F(70.0), Coords::new(F(0.0), F(0.0)), F(2.0), F(0.5), true);
    assert_eq!((full.width(), full.height()), (F(100.0), F(70.0)));
    assert_eq!(full.site_name, None);
}
