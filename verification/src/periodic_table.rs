use vstd::prelude::*;

verus! {

/// Radii in the table are bounded by this value (milliangstrom); the bound
/// keeps every bond-threshold computation inside `i64`.
pub const RADIUS_LIMIT: i64 = 100_000;

/// Reference data for one element.  Masses are in 10^-6 atomic mass units;
/// radii are in milliangstrom.
#[derive(Clone, PartialEq, Debug)]
pub struct Element {
    pub name: String,
    pub atomic_number: u64,
    pub mass: u64,
    pub valence_radius: i64,
    pub valence_electrons: u32,
    pub atom_radius: i64,
}

impl Element {
    /// The element's radii are positive (atom radius) resp. non-negative
    /// (valence radius) and bounded.
    pub open spec fn wf(self) -> bool {
        &&& 0 < self.atom_radius <= RADIUS_LIMIT
        &&& 0 <= self.valence_radius <= RADIUS_LIMIT
    }
}

/// First entry of `entries` whose symbol reads `symbol`, if any.
pub open spec fn lookup(entries: Seq<(String, Element)>, symbol: Seq<char>) -> Option<Element>
    decreases entries.len(),
{
    if entries.len() == 0 {
        None
    } else if entries[0].0@ == symbol {
        Some(entries[0].1)
    } else {
        lookup(entries.drop_first(), symbol)
    }
}

/// If the first `i` entries do not match and entry `i` does, the lookup
/// returns entry `i`.
pub proof fn lemma_lookup_first_match(
    entries: Seq<(String, Element)>,
    symbol: Seq<char>,
    i: int,
)
    requires
        0 <= i < entries.len(),
        forall|k: int| 0 <= k < i ==> (#[trigger] entries[k]).0@ != symbol,
        entries[i].0@ == symbol,
    ensures
        lookup(entries, symbol) == Some(entries[i].1),
    decreases i,
{
    if i > 0 {
        lemma_lookup_first_match(entries.drop_first(), symbol, i - 1);
    }
}

/// A successful lookup in a table of well-formed entries returns a
/// well-formed element.
pub proof fn lemma_lookup_wf(entries: Seq<(String, Element)>, symbol: Seq<char>)
    requires
        forall|i: int| 0 <= i < entries.len() ==> (#[trigger] entries[i]).1.wf(),
        lookup(entries, symbol) is Some,
    ensures
        lookup(entries, symbol)->Some_0.wf(),
    decreases entries.len(),
{
    if entries.len() > 0 && entries[0].0@ != symbol {
        assert(forall|i: int|
            0 <= i < entries.drop_first().len() ==> (#[trigger] entries.drop_first()[i]).1.wf());
        lemma_lookup_wf(entries.drop_first(), symbol);
    }
}

/// If no entry matches, the lookup fails.
pub proof fn lemma_lookup_none(entries: Seq<(String, Element)>, symbol: Seq<char>)
    requires
        forall|k: int| 0 <= k < entries.len() ==> (#[trigger] entries[k]).0@ != symbol,
    ensures
        lookup(entries, symbol) is None,
    decreases entries.len(),
{
    if entries.len() > 0 {
        lemma_lookup_none(entries.drop_first(), symbol);
    }
}

/// The process-wide table of element reference data, keyed by element
/// symbol.  Built once and passed by reference into every analysis call.
pub struct PeriodicTable {
    pub elements: Vec<(String, Element)>,
}

impl PeriodicTable {
    /// Every entry of the table is well formed.
    pub open spec fn wf(self) -> bool {
        forall|i: int| 0 <= i < self.elements@.len() ==> (#[trigger] self.elements@[i]).1.wf()
    }

    /// The table's entries, for use in contracts.
    pub open spec fn view(self) -> Seq<(String, Element)> {
        self.elements@
    }

    /// Append one element's data.
    fn add(
        &mut self,
        symbol: &str,
        name: &str,
        atomic_number: u64,
        mass: u64,
        valence_radius: i64,
        valence_electrons: u32,
        atom_radius: i64,
    )
        requires
            0 < atom_radius <= RADIUS_LIMIT,
            0 <= valence_radius <= RADIUS_LIMIT,
        ensures
            old(self).wf() ==> final(self).wf(),
            final(self).elements@.len() == old(self).elements@.len() + 1,
            forall|i: int|
                0 <= i < old(self).elements@.len() ==> final(self).elements@[i] == old(
                    self,
                ).elements@[i],
            final(self).elements@.last().0@ == symbol@,
            final(self).elements@.last().1.name@ == name@,
            final(self).elements@.last().1.atomic_number == atomic_number,
            final(self).elements@.last().1.mass == mass,
            final(self).elements@.last().1.valence_radius == valence_radius,
            final(self).elements@.last().1.valence_electrons == valence_electrons,
            final(self).elements@.last().1.atom_radius == atom_radius,
    {
        self.elements.push(
            (
                symbol.to_owned(),
                Element {
                    name: name.to_owned(),
                    atomic_number,
                    mass,
                    valence_radius,
                    valence_electrons,
                    atom_radius,
                },
            ),
        );
    }

    /// Build the full table of 118 elements.
    pub fn new() -> (t: Self)
        ensures
            t.wf(),
            t@.len() == 118,
    {
        let mut t = PeriodicTable { elements: Vec::new() };
        add_section_1(&mut t);
        add_section_2(&mut t);
        add_section_3(&mut t);
        add_section_4(&mut t);
        add_section_5(&mut t);
        add_section_6(&mut t);
        t
    }

    /// Look up an element by its symbol: the first entry whose symbol
    /// equals `symbol`, or `None` if the symbol is absent from the table.
    pub fn get(&self, symbol: &String) -> (r: Option<&Element>)
        ensures
            match r {
                Some(e) => lookup(self@, symbol@) == Some(*e),
                None => lookup(self@, symbol@) is None,
            },
    {
        let mut i: usize = 0;
        while i < self.elements.len()
            invariant
                i <= self.elements@.len(),
                forall|k: int| 0 <= k < i ==> (#[trigger] self.elements@[k]).0@ != symbol@,
            decreases self.elements@.len() - i,
        {
            if self.elements[i].0.eq(symbol) {
                proof {
                    lemma_lookup_first_match(self.elements@, symbol@, i as int);
                }
                return Some(&self.elements[i].1);
            }
            i = i + 1;
        }
        proof {
            lemma_lookup_none(self.elements@, symbol@);
        }
        None
    }
}

/// Elements 1 onward of the table, one section of the builder.
fn add_section_1(t: &mut PeriodicTable)
    requires
        old(t).wf(),
    ensures
        final(t).wf(),
        final(t).elements@.len() == old(t).elements@.len() + 20,
{
        t.add("H", "Hydrogen", 1, 1008000, 320, 1, 250);
        t.add("He", "Helium", 2, 4003000, 930, 2, 310);
        t.add("Li", "Lithium", 3, 6941000, 1230, 1, 1670);
        t.add("Be", "Beryllium", 4, 9012200, 900, 2, 1120);
        t.add("B", "Boron", 5, 10811000, 820, 3, 870);
        t.add("C", "Carbon", 6, 12011000, 670, 4, 770);
        t.add("N", "Nitrogen", 7, 14007000, 560, 5, 750);
        t.add("O", "Oxygen", 8, 16000000, 600, 6, 730);
        t.add("F", "Fluorine", 9, 18998000, 500, 7, 710);
        t.add("Ne", "Neon", 10, 20180000, 1120, 8, 690);
        t.add("Na", "Sodium", 11, 22990000, 1540, 1, 1900);
        t.add("Mg", "Magnesium", 12, 24305000, 1360, 2, 1450);
        t.add("Al", "Aluminum", 13, 26982000, 1180, 3, 1180);
        t.add("Si", "Silicon", 14, 28086000, 1110, 4, 1110);
        t.add("P", "Phosphorus", 15, 30974000, 1060, 5, 1060);
        t.add("S", "Sulfur", 16, 32066000, 1020, 6, 1020);
        t.add("Cl", "Chlorine", 17, 35453000, 990, 7, 990);
        t.add("Ar", "Argon", 18, 39948000, 1540, 8, 970);
        t.add("K", "Potassium", 19, 39098000, 2030, 1, 2430);
        t.add("Ca", "Calcium", 20, 40078000, 1740, 2, 1940);
}

/// Elements 21 onward of the table, one section of the builder.
fn add_section_2(t: &mut PeriodicTable)
    requires
        old(t).wf(),
    ensures
        final(t).wf(),
        final(t).elements@.len() == old(t).elements@.len() + 20,
{
        t.add("Sc", "Scandium", 21, 44956000, 1440, 3, 1840);
        t.add("Ti", "Titanium", 22, 47867000, 1320, 4, 1760);
        t.add("V", "Vanadium", 23, 50942000, 1220, 5, 1710);
        t.add("Cr", "Chromium", 24, 51996000, 1180, 6, 1660);
        t.add("Mn", "Manganese", 25, 54938000, 1170, 7, 1610);
        t.add("Fe", "Iron", 26, 55845000, 1320, 8, 1170);
        t.add("Co", "Cobalt", 27, 58933000, 1260, 9, 1160);
        t.add("Ni", "Nickel", 28, 58693000, 1240, 10, 1150);
        t.add("Cu", "Copper", 29, 63546000, 1320, 11, 1170);
        t.add("Zn", "Zinc", 30, 65380000, 1220, 12, 1250);
        t.add("Ga", "Gallium", 31, 69723000, 1220, 3, 1260);
        t.add("Ge", "Germanium", 32, 72630000, 1200, 4, 1220);
        t.add("As", "Arsenic", 33, 74922000, 1190, 5, 1190);
        t.add("Se", "Selenium", 34, 78971000, 1200, 6, 1160);
        t.add("Br", "Bromine", 35, 79904000, 1200, 7, 1140);
        t.add("Kr", "Krypton", 36, 83798000, 1160, 8, 1100);
        t.add("Rb", "Rubidium", 37, 85468000, 2160, 1, 2350);
        t.add("Sr", "Strontium", 38, 87620000, 1910, 2, 2000);
        t.add("Y", "Yttrium", 39, 88906000, 1620, 3, 1800);
        t.add("Zr", "Zirconium", 40, 91224000, 1450, 4, 1600);
}

/// Elements 41 onward of the table, one section of the builder.
fn add_section_3(t: &mut PeriodicTable)
    requires
        old(t).wf(),
    ensures
        final(t).wf(),
        final(t).elements@.len() == old(t).elements@.len() + 20,
{
        t.add("Nb", "Niobium", 41, 92906000, 1340, 5, 1450);
        t.add("Mo", "Molybdenum", 42, 95950000, 1300, 6, 1400);
        t.add("Tc", "Technetium", 43, 98000000, 1270, 7, 1350);
        t.add("Ru", "Ruthenium", 44, 101070000, 1250, 8, 1300);
        t.add("Rh", "Rhodium", 45, 102910000, 1250, 9, 1350);
        t.add("Pd", "Palladium", 46, 106420000, 1280, 10, 1400);
        t.add("Ag", "Silver", 47, 107870000, 1340, 11, 1600);
        t.add("Cd", "Cadmium", 48, 112410000, 1480, 12, 1550);
        t.add("In", "Indium", 49, 114820000, 1440, 3, 1550);
        t.add("Sn", "Tin", 50, 118710000, 1410, 4, 1450);
        t.add("Sb", "Antimony", 51, 121760000, 1400, 5, 1450);
        t.add("Te", "Tellurium", 52, 127600000, 1360, 6, 1400);
        t.add("I", "Iodine", 53, 126900000, 1330, 7, 1400);
        t.add("Xe", "Xenon", 54, 131290000, 1310, 8, 1300);
        t.add("Cs", "Cesium", 55, 132910000, 2350, 1, 2600);
        t.add("Ba", "Barium", 56, 137330000, 1980, 2, 2150);
        t.add("La", "Lanthanum", 57, 138910000, 1690, 3, 1950);
        t.add("Ce", "Cerium", 58, 140116000, 1650, 4, 1850);
        t.add("Pr", "Praseodymium", 59, 140908000, 1650, 5, 1850);
        t.add("Nd", "Neodymium", 60, 144242000, 1640, 6, 1850);
}

/// Elements 61 onward of the table, one section of the builder.
fn add_section_4(t: &mut PeriodicTable)
    requires
        old(t).wf(),
    ensures
        final(t).wf(),
        final(t).elements@.len() == old(t).elements@.len() + 20,
{
        t.add("Pm", "Promethium", 61, 145000000, 1630, 7, 1850);
        t.add("Sm", "Samarium", 62, 150360000, 1620, 8, 1850);
        t.add("Eu", "Europium", 63, 151964000, 1850, 9, 1850);
        t.add("Gd", "Gadolinium", 64, 157250000, 1610, 10, 1800);
        t.add("Tb", "Terbium", 65, 158925000, 1590, 11, 1750);
        t.add("Dy", "Dysprosium", 66, 162500000, 1590, 12, 1750);
        t.add("Ho", "Holmium", 67, 164930000, 1580, 13, 1750);
        t.add("Er", "Erbium", 68, 167259000, 1570, 14, 1750);
        t.add("Tm", "Thulium", 69, 168934000, 1560, 15, 1750);
        t.add("Yb", "Ytterbium", 70, 173054000, 1740, 16, 1750);
        t.add("Lu", "Lutetium", 71, 174967000, 1560, 3, 1750);
        t.add("Hf", "Hafnium", 72, 178490000, 1440, 4, 1550);
        t.add("Ta", "Tantalum", 73, 180948000, 1340, 5, 1450);
        t.add("W", "Tungsten", 74, 183840000, 1300, 6, 1350);
        t.add("Re", "Rhenium", 75, 186207000, 1280, 7, 1350);
        t.add("Os", "Osmium", 76, 190230000, 1260, 8, 1300);
        t.add("Ir", "Iridium", 77, 192217000, 1270, 9, 1350);
        t.add("Pt", "Platinum", 78, 195084000, 1300, 10, 1350);
        t.add("Au", "Gold", 79, 196967000, 1340, 11, 1350);
        t.add("Hg", "Mercury", 80, 200592000, 1490, 12, 1500);
}

/// Elements 81 onward of the table, one section of the builder.
fn add_section_5(t: &mut PeriodicTable)
    requires
        old(t).wf(),
    ensures
        final(t).wf(),
        final(t).elements@.len() == old(t).elements@.len() + 20,
{
        t.add("Tl", "Thallium", 81, 204380000, 1480, 3, 1900);
        t.add("Pb", "Lead", 82, 207200000, 1470, 4, 1800);
        t.add("Bi", "Bismuth", 83, 208980000, 1460, 5, 1600);
        t.add("Po", "Polonium", 84, 209000000, 1460, 6, 1500);
        t.add("At", "Astatine", 85, 210000000, 1450, 7, 1500);
        t.add("Rn", "Radon", 86, 222000000, 1430, 8, 1500);
        t.add("Fr", "Francium", 87, 223000000, 2500, 1, 2600);
        t.add("Ra", "Radium", 88, 226000000, 2100, 2, 2150);
        t.add("Ac", "Actinium", 89, 227000000, 1950, 3, 1950);
        t.add("Th", "Thorium", 90, 232038000, 1800, 4, 1800);
        t.add("Pa", "Protactinium", 91, 231036000, 1800, 5, 1800);
        t.add("U", "Uranium", 92, 238029000, 1750, 6, 1750);
        t.add("Np", "Neptunium", 93, 237000000, 1750, 7, 1750);
        t.add("Pu", "Plutonium", 94, 244000000, 1750, 8, 1750);
        t.add("Am", "Americium", 95, 243000000, 1750, 9, 1750);
        t.add("Cm", "Curium", 96, 247000000, 1750, 10, 1750);
        t.add("Bk", "Berkelium", 97, 247000000, 1750, 11, 1750);
        t.add("Cf", "Californium", 98, 251000000, 1750, 12, 1750);
        t.add("Es", "Einsteinium", 99, 252000000, 1750, 13, 1750);
        t.add("Fm", "Fermium", 100, 257000000, 1750, 14, 1750);
}

/// Elements 101 onward of the table, one section of the builder.
fn add_section_6(t: &mut PeriodicTable)
    requires
        old(t).wf(),
    ensures
        final(t).wf(),
        final(t).elements@.len() == old(t).elements@.len() + 18,
{
        t.add("Md", "Mendelevium", 101, 258000000, 1750, 15, 1750);
        t.add("No", "Nobelium", 102, 259000000, 1750, 16, 1750);
        t.add("Lr", "Lawrencium", 103, 262000000, 1750, 3, 1750);
        t.add("Rf", "Rutherfordium", 104, 267000000, 1700, 4, 1700);
        t.add("Db", "Dubnium", 105, 268000000, 1700, 5, 1700);
        t.add("Sg", "Seaborgium", 106, 269000000, 1700, 6, 1700);
        t.add("Bh", "Bohrium", 107, 270000000, 1700, 7, 1700);
        t.add("Hs", "Hassium", 108, 277000000, 1700, 8, 1700);
        t.add("Mt", "Meitnerium", 109, 278000000, 1700, 9, 1700);
        t.add("Ds", "Darmstadtium", 110, 281000000, 1700, 10, 1700);
        t.add("Rg", "Roentgenium", 111, 282000000, 1700, 11, 1700);
        t.add("Cn", "Copernicium", 112, 285000000, 1700, 12, 1700);
        t.add("Nh", "Nihonium", 113, 286000000, 1700, 3, 1700);
        t.add("Fl", "Flerovium", 114, 289000000, 1700, 4, 1700);
        t.add("Mc", "Moscovium", 115, 290000000, 1700, 5, 1700);
        t.add("Lv", "Livermorium", 116, 293000000, 1700, 6, 1700);
        t.add("Ts", "Tennessine", 117, 294000000, 1700, 7, 1700);
        t.add("Og", "Oganesson", 118, 294000000, 1600, 8, 1600);
}

} // verus!
