use vstd::prelude::*;

verus! {

/// A board cell. Each cell is one byte's worth of identity (see [`Cell::id`]):
/// the id doubles as a texture selector for the host and as the key of the
/// classification predicates below. The id ranges partition the id space:
/// blank (0), body variants (1..=10), head variants (11..=13), snacks
/// (14..=17), the unique fruit (18), staple foods (19..=23), drinks
/// (24..=25) and drugs (26..=28).
#[derive(Clone, Copy, Debug, PartialEq, Eq, Structural)]
pub enum Cell {
    Blank,
    BodyClay,
    BodyCoal,
    BodyDiamond,
    BodyDirt,
    BodyEmerald,
    BodyGold,
    BodyIron,
    BodyLapis,
    BodyStone,
    BodyTNT,
    HeadDispenser,
    HeadDropper,
    HeadObserver,
    SnackCookie,
    SnackDriedKelp,
    SnackPumpkinPie,
    SnackSpicyStrip,
    FruitGoldenApple,
    FoodBeef,
    FoodBread,
    FoodCake,
    FoodChicken,
    FoodFish,
    DrinkMilk,
    DrinkHoney,
    DrugLingeringHeal,
    DrugSplashHeal,
    DrugSplashHealthBoost,
}

impl Cell {
    /// The numeric id of a cell value.
    pub open spec fn spec_id(self) -> u8 {
        match self {
            Cell::Blank => 0,
            Cell::BodyClay => 1,
            Cell::BodyCoal => 2,
            Cell::BodyDiamond => 3,
            Cell::BodyDirt => 4,
            Cell::BodyEmerald => 5,
            Cell::BodyGold => 6,
            Cell::BodyIron => 7,
            Cell::BodyLapis => 8,
            Cell::BodyStone => 9,
            Cell::BodyTNT => 10,
            Cell::HeadDispenser => 11,
            Cell::HeadDropper => 12,
            Cell::HeadObserver => 13,
            Cell::SnackCookie => 14,
            Cell::SnackDriedKelp => 15,
            Cell::SnackPumpkinPie => 16,
            Cell::SnackSpicyStrip => 17,
            Cell::FruitGoldenApple => 18,
            Cell::FoodBeef => 19,
            Cell::FoodBread => 20,
            Cell::FoodCake => 21,
            Cell::FoodChicken => 22,
            Cell::FoodFish => 23,
            Cell::DrinkMilk => 24,
            Cell::DrinkHoney => 25,
            Cell::DrugLingeringHeal => 26,
            Cell::DrugSplashHeal => 27,
            Cell::DrugSplashHealthBoost => 28,
        }
    }

    /// The byte the host renders this cell from.
    pub fn id(&self) -> (r: u8)
        ensures
            r == self.spec_id(),
    {
        match self {
            Cell::Blank => 0,
            Cell::BodyClay => 1,
            Cell::BodyCoal => 2,
            Cell::BodyDiamond => 3,
            Cell::BodyDirt => 4,
            Cell::BodyEmerald => 5,
            Cell::BodyGold => 6,
            Cell::BodyIron => 7,
            Cell::BodyLapis => 8,
            Cell::BodyStone => 9,
            Cell::BodyTNT => 10,
            Cell::HeadDispenser => 11,
            Cell::HeadDropper => 12,
            Cell::HeadObserver => 13,
            Cell::SnackCookie => 14,
            Cell::SnackDriedKelp => 15,
            Cell::SnackPumpkinPie => 16,
            Cell::SnackSpicyStrip => 17,
            Cell::FruitGoldenApple => 18,
            Cell::FoodBeef => 19,
            Cell::FoodBread => 20,
            Cell::FoodCake => 21,
            Cell::FoodChicken => 22,
            Cell::FoodFish => 23,
            Cell::DrinkMilk => 24,
            Cell::DrinkHoney => 25,
            Cell::DrugLingeringHeal => 26,
            Cell::DrugSplashHeal => 27,
            Cell::DrugSplashHealthBoost => 28,
        }
    }

    pub open spec fn spec_is_eatable(self) -> bool {
        self.spec_id() >= 14
    }

    pub open spec fn spec_is_snack(self) -> bool {
        14 <= self.spec_id() <= 17
    }

    pub open spec fn spec_is_fruit(self) -> bool {
        self.spec_id() == 18
    }

    pub open spec fn spec_is_food(self) -> bool {
        19 <= self.spec_id() <= 23
    }

    pub open spec fn spec_is_drink(self) -> bool {
        24 <= self.spec_id() <= 25
    }

    pub open spec fn spec_is_drug(self) -> bool {
        26 <= self.spec_id() <= 28
    }

    pub open spec fn spec_is_head(self) -> bool {
        11 <= self.spec_id() <= 13
    }

    pub open spec fn spec_is_body(self) -> bool {
        1 <= self.spec_id() <= 10
    }

    /// A cell the snake occupies: one of the body or head variants.
    pub open spec fn spec_is_snake(self) -> bool {
        self.spec_is_body() || self.spec_is_head()
    }

    pub fn is_eatable(&self) -> (r: bool)
        ensures
            r == self.spec_is_eatable(),
    {
        self.id() >= 14
    }

    pub fn is_snack(&self) -> (r: bool)
        ensures
            r == self.spec_is_snack(),
    {
        let id = self.id();
        14 <= id && id <= 17
    }

    pub fn is_fruit(&self) -> (r: bool)
        ensures
            r == self.spec_is_fruit(),
    {
        self.id() == 18
    }

    pub fn is_food(&self) -> (r: bool)
        ensures
            r == self.spec_is_food(),
    {
        let id = self.id();
        19 <= id && id <= 23
    }

    pub fn is_drink(&self) -> (r: bool)
        ensures
            r == self.spec_is_drink(),
    {
        let id = self.id();
        24 <= id && id <= 25
    }

    pub fn is_drug(&self) -> (r: bool)
        ensures
            r == self.spec_is_drug(),
    {
        let id = self.id();
        26 <= id && id <= 28
    }

    pub fn is_head(&self) -> (r: bool)
        ensures
            r == self.spec_is_head(),
    {
        let id = self.id();
        11 <= id && id <= 13
    }

    pub fn is_body(&self) -> (r: bool)
        ensures
            r == self.spec_is_body(),
    {
        let id = self.id();
        1 <= id && id <= 10
    }

    /// Reset the cell to blank.
    pub fn blank(&mut self)
        ensures
            *final(self) == Cell::Blank,
    {
        *self = Cell::Blank;
    }

    /// Overwrite with a random eatable cell: one of the five consumable
    /// sub-categories, then a random member of that sub-category.
    pub fn eatable(&mut self)
        ensures
            final(self).spec_is_eatable(),
    {
        let prob: u8 = rand::random();
        match prob % 5 {
            0 => self.drug(),
            1 => self.drink(),
            2 => self.food(),
            3 => self.fruit(),
            _ => self.snack(),
        }
    }

    /// Overwrite with a random drug cell.
    pub fn drug(&mut self)
        ensures
            final(self).spec_is_drug(),
    {
        let prob: u8 = rand::random();
        *self = match prob % 3 {
            0 => Cell::DrugLingeringHeal,
            1 => Cell::DrugSplashHeal,
            _ => Cell::DrugSplashHealthBoost,
        };
    }

    /// Overwrite with a random drink cell.
    pub fn drink(&mut self)
        ensures
            final(self).spec_is_drink(),
    {
        if rand::random() {
            *self = Cell::DrinkMilk;
        } else {
            *self = Cell::DrinkHoney;
        }
    }

    /// Overwrite with a random staple-food cell.
    pub fn food(&mut self)
        ensures
            final(self).spec_is_food(),
    {
        let prob: u8 = rand::random();
        *self = match prob % 5 {
            0 => Cell::FoodBeef,
            1 => Cell::FoodBread,
            2 => Cell::FoodCake,
            3 => Cell::FoodChicken,
            _ => Cell::FoodFish,
        };
    }

    /// Overwrite with the unique fruit cell.
    pub fn fruit(&mut self)
        ensures
            *final(self) == Cell::FruitGoldenApple,
    {
        *self = Cell::FruitGoldenApple;
    }

    /// Overwrite with a random snack cell.
    pub fn snack(&mut self)
        ensures
            final(self).spec_is_snack(),
    {
        let prob: u8 = rand::random();
        *self = match prob % 4 {
            0 => Cell::SnackCookie,
            1 => Cell::SnackDriedKelp,
            2 => Cell::SnackPumpkinPie,
            _ => Cell::SnackSpicyStrip,
        };
    }

    pub fn head_normal(&mut self)
        ensures
            *final(self) == Cell::HeadDispenser,
    {
        *self = Cell::HeadDispenser;
    }

    pub fn head_happy(&mut self)
        ensures
            *final(self) == Cell::HeadDropper,
    {
        *self = Cell::HeadDropper;
    }

    pub fn head_unhappy(&mut self)
        ensures
            *final(self) == Cell::HeadObserver,
    {
        *self = Cell::HeadObserver;
    }

    /// Overwrite with a random body cell. All body variants are
    /// behaviourally identical; the choice is cosmetic.
    pub fn body(&mut self)
        ensures
            final(self).spec_is_body(),
    {
        let prob: u8 = rand::random();
        *self = match prob % 10 {
            0 => Cell::BodyClay,
            1 => Cell::BodyCoal,
            2 => Cell::BodyDiamond,
            3 => Cell::BodyDirt,
            4 => Cell::BodyEmerald,
            5 => Cell::BodyGold,
            6 => Cell::BodyIron,
            7 => Cell::BodyLapis,
            8 => Cell::BodyStone,
            _ => Cell::BodyTNT,
        };
    }
}

} // verus!
