//! Creating one entity on the surface, with its parameters and follow-up commands.

use vstd::prelude::*;
use crate::admiral::lua_command::{LuaCommand, BoxedLuaCommand, CommandView, DEFAULT_FORCE_VAR};
use crate::surface::direction::RailDirection;
use crate::surface::vpoint::HalfPoint;
use crate::text::{seq_join, strings_view, half_decimal, format_halves, join_strings};

verus! {

/// Factorio's eight directions.
#[derive(Clone, Copy, PartialEq, Eq, Structural, Debug, Hash)]
pub enum FactoDirection {
    North,
    NorthEast,
    East,
    SouthEast,
    South,
    SouthWest,
    West,
    NorthWest,
}

/// Variant name of a direction.
pub open spec fn facto_direction_name(d: FactoDirection) -> Seq<char> {
    match d {
        FactoDirection::North => "North"@,
        FactoDirection::NorthEast => "NorthEast"@,
        FactoDirection::East => "East"@,
        FactoDirection::SouthEast => "SouthEast"@,
        FactoDirection::South => "South"@,
        FactoDirection::SouthWest => "SouthWest"@,
        FactoDirection::West => "West"@,
        FactoDirection::NorthWest => "NorthWest"@,
    }
}

/// Lower case variant name of a direction, as `defines.direction` spells it.
pub open spec fn facto_direction_lower(d: FactoDirection) -> Seq<char> {
    match d {
        FactoDirection::North => "north"@,
        FactoDirection::NorthEast => "northeast"@,
        FactoDirection::East => "east"@,
        FactoDirection::SouthEast => "southeast"@,
        FactoDirection::South => "south"@,
        FactoDirection::SouthWest => "southwest"@,
        FactoDirection::West => "west"@,
        FactoDirection::NorthWest => "northwest"@,
    }
}

/// Lower case variant name of a rail direction.
pub open spec fn rail_direction_lower(d: RailDirection) -> Seq<char> {
    match d {
        RailDirection::Up => "up"@,
        RailDirection::Down => "down"@,
        RailDirection::Left => "left"@,
        RailDirection::Right => "right"@,
    }
}

impl FactoDirection {
    /// The variant name.
    pub fn as_ref(&self) -> (r: &'static str)
        ensures
            r@ == facto_direction_name(*self),
    {
        match self {
            FactoDirection::North => "North",
            FactoDirection::NorthEast => "NorthEast",
            FactoDirection::East => "East",
            FactoDirection::SouthEast => "SouthEast",
            FactoDirection::South => "South",
            FactoDirection::SouthWest => "SouthWest",
            FactoDirection::West => "West",
            FactoDirection::NorthWest => "NorthWest",
        }
    }

    fn lower_name(&self) -> (r: &'static str)
        ensures
            r@ == facto_direction_lower(*self),
    {
        match self {
            FactoDirection::North => "north",
            FactoDirection::NorthEast => "northeast",
            FactoDirection::East => "east",
            FactoDirection::SouthEast => "southeast",
            FactoDirection::South => "south",
            FactoDirection::SouthWest => "southwest",
            FactoDirection::West => "west",
            FactoDirection::NorthWest => "northwest",
        }
    }
}

fn rail_lower_name(d: &RailDirection) -> (r: &'static str)
    ensures
        r@ == rail_direction_lower(*d),
{
    match d {
        RailDirection::Up => "up",
        RailDirection::Down => "down",
        RailDirection::Left => "left",
        RailDirection::Right => "right",
    }
}

/// A parameter of entity creation.
#[derive(Debug)]
pub enum CreateParam {
    Direction(RailDirection),
    DirectionFacto(FactoDirection),
    Recipe(String),
}

/// The content of a parameter.
pub enum ParamView {
    Direction(RailDirection),
    DirectionFacto(FactoDirection),
    Recipe(Seq<char>),
}

impl View for CreateParam {
    type V = ParamView;

    open spec fn view(&self) -> ParamView {
        match self {
            CreateParam::Direction(d) => ParamView::Direction(*d),
            CreateParam::DirectionFacto(d) => ParamView::DirectionFacto(*d),
            CreateParam::Recipe(name) => ParamView::Recipe(name@),
        }
    }
}

/// Key and value of a parameter.
pub open spec fn param_parts(p: ParamView) -> (Seq<char>, Seq<char>) {
    match p {
        ParamView::Direction(d) => ("direction"@, "defines.direction."@ + rail_direction_lower(d)),
        ParamView::DirectionFacto(d) => ("direction"@, "defines.direction."@ + facto_direction_lower(d)),
        ParamView::Recipe(name) => ("recipe"@, name),
    }
}

/// `key=value` of a parameter.
pub open spec fn param_text(p: ParamView) -> Seq<char> {
    param_parts(p).0 + "="@ + param_parts(p).1
}

/// The contents of a list of parameters.
pub open spec fn params_view(ps: Seq<CreateParam>) -> Seq<ParamView> {
    ps.map_values(|p: CreateParam| p@)
}

impl CreateParam {
    /// Key and value for the Lua table of `create_entity`.
    pub fn to_param(&self) -> (r: (&'static str, String))
        ensures
            r.0@ == param_parts(self@).0,
            r.1@ == param_parts(self@).1,
    {
        match self {
            CreateParam::Direction(direction) => {
                let mut value = String::from_str("defines.direction.");
                value.append(rail_lower_name(direction));
                ("direction", value)
            },
            CreateParam::DirectionFacto(direction) => {
                let mut value = String::from_str("defines.direction.");
                value.append(direction.lower_name());
                ("direction", value)
            },
            CreateParam::Recipe(name) => ("recipe", name.clone()),
        }
    }

    /// The single direction parameter.
    pub fn direction(direction: RailDirection) -> (r: Vec<Self>)
        ensures
            params_view(r@) == seq![ParamView::Direction(direction)],
    {
        let r = vec![CreateParam::Direction(direction)];
        proof { assert(params_view(r@) =~= seq![ParamView::Direction(direction)]); }
        r
    }

    /// The single recipe parameter.
    pub fn recipe_str(recipe: &'static str) -> (r: Vec<Self>)
        ensures
            params_view(r@) == seq![ParamView::Recipe(recipe@)],
    {
        let r = vec![CreateParam::Recipe(String::from_str(recipe))];
        proof { assert(params_view(r@) =~= seq![ParamView::Recipe(recipe@)]); }
        r
    }
}

/// `game.surfaces[1].create_entity` of one entity, then its follow-up commands.
#[derive(Debug)]
pub struct FacSurfaceCreateEntity {
    pub name: String,
    pub position: HalfPoint,
    pub params: Vec<CreateParam>,
    pub commands: Vec<String>,
}

/// The content of an entity creation.
pub struct EntityView {
    pub name: Seq<char>,
    pub position: HalfPoint,
    pub params: Seq<ParamView>,
    pub commands: Seq<Seq<char>>,
}

impl View for FacSurfaceCreateEntity {
    type V = EntityView;

    open spec fn view(&self) -> EntityView {
        EntityView {
            name: self.name@,
            position: self.position,
            params: params_view(self.params@),
            commands: strings_view(self.commands@),
        }
    }
}

/// The `create_entity` call of an entity.
pub open spec fn entity_create_lua(e: EntityView) -> Seq<char> {
    "game.surfaces[1].create_entity{ name=\""@ + e.name + "\", position={ x="@ + half_decimal(e.position.x2 as int)
        + ",y="@ + half_decimal(e.position.y2 as int) + " }, force="@ + DEFAULT_FORCE_VAR@ + ","@
        + seq_join(Seq::new(e.params.len(), |i: int| param_text(e.params[i])), ","@) + "};"@
}

/// The Lua of an entity creation: the call alone, or bound to `admiral_create`
/// and followed by the commands.
pub open spec fn entity_lua(e: EntityView) -> Seq<char> {
    if e.commands.len() == 0 {
        entity_create_lua(e)
    } else {
        "local admiral_create = "@ + entity_create_lua(e) + " "@ + seq_join(e.commands, " "@)
    }
}

/// The content of a new entity creation.
pub open spec fn entity_spec(name: Seq<char>, position: HalfPoint, params: Seq<ParamView>, commands: Seq<Seq<char>>) -> EntityView {
    EntityView { name, position, params, commands }
}

impl FacSurfaceCreateEntity {
    pub fn new(name: &'static str, position: HalfPoint) -> (r: Self)
        ensures
            r@ == entity_spec(name@, position, Seq::empty(), Seq::empty()),
    {
        let r = FacSurfaceCreateEntity {
            name: String::from_str(name),
            position,
            params: Vec::new(),
            commands: Vec::new(),
        };
        proof {
            assert(params_view(r.params@) =~= Seq::empty());
            assert(strings_view(r.commands@) =~= Seq::empty());
        }
        r
    }

    pub fn new_params(name: &'static str, position: HalfPoint, params: Vec<CreateParam>) -> (r: Self)
        ensures
            r@ == entity_spec(name@, position, params_view(params@), Seq::empty()),
    {
        let r = FacSurfaceCreateEntity { name: String::from_str(name), position, params, commands: Vec::new() };
        proof {
            assert(strings_view(r.commands@) =~= Seq::empty());
        }
        r
    }

    pub fn new_commands(name: &'static str, position: HalfPoint, commands: Vec<String>) -> (r: Self)
        ensures
            r@ == entity_spec(name@, position, Seq::empty(), strings_view(commands@)),
    {
        let r = FacSurfaceCreateEntity { name: String::from_str(name), position, params: Vec::new(), commands };
        proof {
            assert(params_view(r.params@) =~= Seq::empty());
        }
        r
    }

    pub fn new_params_commands(
        name: &'static str,
        position: HalfPoint,
        params: Vec<CreateParam>,
        commands: Vec<String>,
    ) -> (r: Self)
        ensures
            r@ == entity_spec(name@, position, params_view(params@), strings_view(commands@)),
    {
        FacSurfaceCreateEntity { name: String::from_str(name), position, params, commands }
    }

    pub fn new_rail_straight(position: HalfPoint, direction: RailDirection) -> (r: Self)
        ensures
            r@ == entity_spec("straight-rail"@, position, seq![ParamView::Direction(direction)], Seq::empty()),
    {
        Self::new_params("straight-rail", position, CreateParam::direction(direction))
    }

    pub fn new_rail_straight_facto(position: HalfPoint, direction: FactoDirection) -> (r: Self)
        ensures
            r@ == entity_spec("straight-rail"@, position, seq![ParamView::DirectionFacto(direction)], Seq::empty()),
    {
        let params = vec![CreateParam::DirectionFacto(direction)];
        proof { assert(params_view(params@) =~= seq![ParamView::DirectionFacto(direction)]); }
        Self::new_params("straight-rail", position, params)
    }

    pub fn new_rail_curved(position: HalfPoint, direction: RailDirection) -> (r: Self)
        ensures
            r@ == entity_spec("curved-rail"@, position, seq![ParamView::Direction(direction)], Seq::empty()),
    {
        Self::new_params("curved-rail", position, CreateParam::direction(direction))
    }

    pub fn new_rail_curved_facto(position: HalfPoint, direction: FactoDirection) -> (r: Self)
        ensures
            r@ == entity_spec("curved-rail"@, position, seq![ParamView::DirectionFacto(direction)], Seq::empty()),
    {
        let params = vec![CreateParam::DirectionFacto(direction)];
        proof { assert(params_view(params@) =~= seq![ParamView::DirectionFacto(direction)]); }
        Self::new_params("curved-rail", position, params)
    }

    pub fn new_rail_signal(position: HalfPoint, direction: RailDirection) -> (r: Self)
        ensures
            r@ == entity_spec("rail-signal"@, position, seq![ParamView::Direction(direction)], Seq::empty()),
    {
        let params = vec![CreateParam::Direction(direction)];
        proof { assert(params_view(params@) =~= seq![ParamView::Direction(direction)]); }
        Self::new_params("rail-signal", position, params)
    }

    pub fn new_electric_pole_big(position: HalfPoint) -> (r: Self)
        ensures
            r@ == entity_spec("big-electric-pole"@, position, Seq::empty(), Seq::empty()),
    {
        Self::new("big-electric-pole", position)
    }

    /// An electric mining drill facing `direction`.
    pub fn new_drill(position: HalfPoint, direction: RailDirection) -> (r: Self)
        ensures
            r@ == entity_spec("electric-mining-drill"@, position, seq![ParamView::Direction(direction)], Seq::empty()),
    {
        Self::new_params("electric-mining-drill", position, CreateParam::direction(direction))
    }

    /// A red (passive provider) logistic chest.
    pub fn new_chest_red(position: HalfPoint) -> (r: Self)
        ensures
            r@ == entity_spec("logistic-chest-passive-provider"@, position, Seq::empty(), Seq::empty()),
    {
        Self::new("logistic-chest-passive-provider", position)
    }

    /// A medium electric pole.
    pub fn new_electric_pole_medium(position: HalfPoint) -> (r: Self)
        ensures
            r@ == entity_spec("medium-electric-pole"@, position, Seq::empty(), Seq::empty()),
    {
        Self::new("medium-electric-pole", position)
    }

    pub fn new_radar(position: HalfPoint) -> (r: Self)
        ensures
            r@ == entity_spec("radar"@, position, Seq::empty(), Seq::empty()),
    {
        Self::new("radar", position)
    }

    pub fn into_boxed(self) -> (r: BoxedLuaCommand)
        ensures
            r@ == CommandView::CreateEntity(self@),
    {
        BoxedLuaCommand::CreateEntity(self)
    }
}

impl LuaCommand for FacSurfaceCreateEntity {
    open spec fn lua_text(&self) -> Seq<char> {
        entity_lua(self@)
    }

    fn make_lua(&self) -> (s: String) {
        let ghost e = self@;
        let mut param_texts: Vec<String> = Vec::new();
        let mut i: usize = 0;
        while i < self.params.len()
            invariant
                i <= self.params@.len(),
                e == self@,
                param_texts@.len() == i,
                forall|j: int| 0 <= j < i ==> (#[trigger] param_texts@[j])@ == param_text(e.params[j]),
            decreases self.params@.len() - i,
        {
            let (key, value) = self.params[i].to_param();
            let mut text = String::from_str(key);
            text.append("=");
            text.append(value.as_str());
            param_texts.push(text);
            i = i + 1;
        }
        let params_str = join_strings(&param_texts, ",");
        proof {
            assert(strings_view(param_texts@) =~= Seq::new(e.params.len(), |i: int| param_text(e.params[i])));
        }
        let mut create = String::from_str("game.surfaces[1].create_entity{ name=\"");
        create.append(self.name.as_str());
        create.append("\", position={ x=");
        let x = format_halves(self.position.x2);
        create.append(x.as_str());
        create.append(",y=");
        let y = format_halves(self.position.y2);
        create.append(y.as_str());
        create.append(" }, force=");
        create.append(DEFAULT_FORCE_VAR);
        create.append(",");
        create.append(params_str.as_str());
        create.append("};");
        if self.commands.len() == 0 {
            create
        } else {
            let mut s = String::from_str("local admiral_create = ");
            s.append(create.as_str());
            s.append(" ");
            let joined = join_strings(&self.commands, " ");
            s.append(joined.as_str());
            s
        }
    }
}

} // verus!
