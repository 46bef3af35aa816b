//! Recording metadata, its builder, and a decoded recording.

use vstd::prelude::*;

use crate::events::{EventCD, ExtTrigger};
use crate::extra::ExtraFields;

verus! {

/// The encoding of a raw event stream.
#[derive(Debug, Clone, Copy, PartialEq, Eq, Structural)]
pub enum EventEncoding {
    Evt20,
    Evt21,
    Evt30,
}

/// Sensor resolution in pixels.
#[derive(Debug, Clone, Copy, PartialEq, Eq, Structural)]
pub struct Geometry {
    pub width: u16,
    pub height: u16,
}

/// The content of metadata (or of a builder) as mathematical values.
pub struct MetadataFields {
    pub encoding: Option<EventEncoding>,
    pub geometry: Option<Geometry>,
    pub camera_integrator_name: Option<Seq<char>>,
    pub plugin_integrator_name: Option<Seq<char>>,
    pub plugin_name: Option<Seq<char>>,
    pub serial_number: Option<Seq<char>>,
    pub system_id: Option<Seq<char>>,
    pub date: Option<Seq<char>>,
    pub generation: Option<Seq<char>>,
    pub extra: Map<Seq<char>, Seq<char>>,
}

/// No field set.
pub open spec fn no_fields() -> MetadataFields {
    MetadataFields {
        encoding: None,
        geometry: None,
        camera_integrator_name: None,
        plugin_integrator_name: None,
        plugin_name: None,
        serial_number: None,
        system_id: None,
        date: None,
        generation: None,
        extra: Map::empty(),
    }
}

/// The text of an optional string.
pub open spec fn text_view(o: Option<String>) -> Option<Seq<char>> {
    match o {
        Some(s) => Some(s@),
        None => None,
    }
}

/// What a recording's header says about it.
#[derive(Debug, Clone, PartialEq, Eq)]
pub struct Metadata {
    pub encoding: Option<EventEncoding>,
    pub geometry: Geometry,
    pub camera_integrator_name: Option<String>,
    pub plugin_integrator_name: Option<String>,
    pub plugin_name: Option<String>,
    pub serial_number: Option<String>,
    pub system_id: Option<String>,
    /// `YYYY-MM-DD HH:MM:SS`
    pub date: Option<String>,
    /// e.g. `"4.2"`
    pub generation: Option<String>,
    pub extra: ExtraFields,
}

impl View for Metadata {
    type V = MetadataFields;

    open spec fn view(&self) -> MetadataFields {
        MetadataFields {
            encoding: self.encoding,
            geometry: Some(self.geometry),
            camera_integrator_name: text_view(self.camera_integrator_name),
            plugin_integrator_name: text_view(self.plugin_integrator_name),
            plugin_name: text_view(self.plugin_name),
            serial_number: text_view(self.serial_number),
            system_id: text_view(self.system_id),
            date: text_view(self.date),
            generation: text_view(self.generation),
            extra: self.extra@,
        }
    }
}

/// Collects metadata field by field; `build` succeeds once the encoding and
/// the geometry are known.
#[derive(Debug, Clone, PartialEq, Eq)]
pub struct MetadataBuilder {
    encoding: Option<EventEncoding>,
    geometry: Option<Geometry>,
    camera_integrator_name: Option<String>,
    plugin_integrator_name: Option<String>,
    plugin_name: Option<String>,
    serial_number: Option<String>,
    system_id: Option<String>,
    date: Option<String>,
    generation: Option<String>,
    extra: ExtraFields,
}

impl View for MetadataBuilder {
    type V = MetadataFields;

    closed spec fn view(&self) -> MetadataFields {
        MetadataFields {
            encoding: self.encoding,
            geometry: self.geometry,
            camera_integrator_name: text_view(self.camera_integrator_name),
            plugin_integrator_name: text_view(self.plugin_integrator_name),
            plugin_name: text_view(self.plugin_name),
            serial_number: text_view(self.serial_number),
            system_id: text_view(self.system_id),
            date: text_view(self.date),
            generation: text_view(self.generation),
            extra: self.extra@,
        }
    }
}

impl Default for MetadataBuilder {
    /// A builder with no field set.
    fn default() -> (r: Self)
        ensures
            r@ == no_fields(),
    {
        Self {
            encoding: None,
            geometry: None,
            camera_integrator_name: None,
            plugin_integrator_name: None,
            plugin_name: None,
            serial_number: None,
            system_id: None,
            date: None,
            generation: None,
            extra: ExtraFields::new(),
        }
    }
}

impl MetadataBuilder {
    /// A builder with no field set.
    pub fn new() -> (r: Self)
        ensures
            r@ == no_fields(),
    {
        Self::default()
    }

    /// The encoding, if set.
    pub fn encoding(&self) -> (r: Option<EventEncoding>)
        ensures
            r == self@.encoding,
    {
        self.encoding
    }

    /// The geometry, if set.
    pub fn geometry(&self) -> (r: Option<Geometry>)
        ensures
            r == self@.geometry,
    {
        self.geometry
    }

    /// The sensor generation, if set.
    pub fn generation(&self) -> (r: Option<&str>)
        ensures
            match r {
                Some(s) => self@.generation == Some(s@),
                None => self@.generation is None,
            },
    {
        match &self.generation {
            Some(s) => Some(s.as_str()),
            None => None,
        }
    }

    /// The camera integrator's name, if set.
    pub fn camera_integrator_name(&self) -> (r: Option<&str>)
        ensures
            match r {
                Some(s) => self@.camera_integrator_name == Some(s@),
                None => self@.camera_integrator_name is None,
            },
    {
        match &self.camera_integrator_name {
            Some(s) => Some(s.as_str()),
            None => None,
        }
    }

    /// Sets the encoding.
    pub fn with_encoding(self, encoding: EventEncoding) -> (r: Self)
        ensures
            r@ == (MetadataFields { encoding: Some(encoding), ..self@ }),
    {
        let mut b = self;
        b.encoding = Some(encoding);
        b
    }

    /// Sets the geometry.
    pub fn with_geometry(self, geometry: Geometry) -> (r: Self)
        ensures
            r@ == (MetadataFields { geometry: Some(geometry), ..self@ }),
    {
        let mut b = self;
        b.geometry = Some(geometry);
        b
    }

    /// Sets the camera integrator's name.
    pub fn with_camera_integrator_name(self, value: String) -> (r: Self)
        ensures
            r@ == (MetadataFields { camera_integrator_name: Some(value@), ..self@ }),
    {
        let mut b = self;
        b.camera_integrator_name = Some(value);
        b
    }

    /// Sets the plugin integrator's name.
    pub fn with_plugin_integrator_name(self, value: String) -> (r: Self)
        ensures
            r@ == (MetadataFields { plugin_integrator_name: Some(value@), ..self@ }),
    {
        let mut b = self;
        b.plugin_integrator_name = Some(value);
        b
    }

    /// Sets the plugin name.
    pub fn with_plugin_name(self, value: String) -> (r: Self)
        ensures
            r@ == (MetadataFields { plugin_name: Some(value@), ..self@ }),
    {
        let mut b = self;
        b.plugin_name = Some(value);
        b
    }

    /// Sets the serial number.
    pub fn with_serial_number(self, value: String) -> (r: Self)
        ensures
            r@ == (MetadataFields { serial_number: Some(value@), ..self@ }),
    {
        let mut b = self;
        b.serial_number = Some(value);
        b
    }

    /// Sets the system ID.
    pub fn with_system_id(self, value: String) -> (r: Self)
        ensures
            r@ == (MetadataFields { system_id: Some(value@), ..self@ }),
    {
        let mut b = self;
        b.system_id = Some(value);
        b
    }

    /// Sets the recording date.
    pub fn with_date(self, value: String) -> (r: Self)
        ensures
            r@ == (MetadataFields { date: Some(value@), ..self@ }),
    {
        let mut b = self;
        b.date = Some(value);
        b
    }

    /// Sets the sensor generation.
    pub fn with_generation(self, value: String) -> (r: Self)
        ensures
            r@ == (MetadataFields { generation: Some(value@), ..self@ }),
    {
        let mut b = self;
        b.generation = Some(value);
        b
    }

    /// Sets the value of an additional field, replacing the value it had.
    pub fn with_extra(self, key: String, value: String) -> (r: Self)
        ensures
            r@ == (MetadataFields { extra: self@.extra.insert(key@, value@), ..self@ }),
            r@.extra.dom().finite(),
            r@.extra.len() == self@.extra.len() + (if self@.extra.contains_key(key@) {
                0int
            } else {
                1int
            }),
    {
        let mut b = self;
        proof {
            b.extra.lemma_finite();
        }
        let ghost before = b.extra@;
        let ghost k = key@;
        b.extra.insert(key, value);
        proof {
            b.extra.lemma_finite();
            if before.contains_key(k) {
                assert(b.extra@.dom() =~= before.dom());
            }
        }
        b
    }

    /// The metadata, when both the encoding and the geometry are set.
    pub fn build(self) -> (r: Option<Metadata>)
        ensures
            r is Some <==> (self@.encoding is Some && self@.geometry is Some),
            r matches Some(m) ==> m@ == self@,
    {
        let encoding = match self.encoding {
            Some(e) => e,
            None => return None,
        };
        let geometry = match self.geometry {
            Some(g) => g,
            None => return None,
        };

        Some(
            Metadata {
                encoding: Some(encoding),
                geometry,
                camera_integrator_name: self.camera_integrator_name,
                plugin_integrator_name: self.plugin_integrator_name,
                plugin_name: self.plugin_name,
                serial_number: self.serial_number,
                system_id: self.system_id,
                date: self.date,
                generation: self.generation,
                extra: self.extra,
            },
        )
    }
}

/// A decoded recording.
#[derive(Debug, Clone, PartialEq, Eq)]
pub struct Record {
    pub metadata: Metadata,
    /// In timestamp order.
    pub events: Vec<EventCD>,
    /// In timestamp order.
    pub triggers: Vec<ExtTrigger>,
}

} // verus!
